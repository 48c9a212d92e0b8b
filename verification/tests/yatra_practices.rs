use sadhana_frontend::chart_report::UserPractice;
use sadhana_frontend::model::PracticeDataType;
use sadhana_frontend::yatra_practices::{practice_icon, PracticeMapping, YatraPractice, YatraUserPractice};

fn link(name: &str, dt: PracticeDataType, user: Option<&str>) -> YatraUserPractice {
    YatraUserPractice {
        yatra_practice: YatraPractice { id: format!("id-{name}"), practice: name.into(), data_type: dt, colour_zones: None },
        user_practice: user.map(|u| u.to_string()),
    }
}

fn mine(name: &str, dt: PracticeDataType) -> UserPractice {
    UserPractice { id: name.into(), practice: name.into(), data_type: dt, is_active: true, is_required: None }
}

fn sorted(mut v: Vec<String>) -> Vec<String> {
    v.sort();
    v
}

#[test]
fn mapped_practices_of_links() {
    let m = PracticeMapping::new(vec![
        link("Rounds", PracticeDataType::Int, Some("Japa")),
        link("Rise", PracticeDataType::Time, None),
        link("Extra", PracticeDataType::Int, Some("Japa")),
    ]);
    assert_eq!(m.mapped, vec!["Japa".to_string()]);
    assert_eq!(m.entries.len(), 3);
}

#[test]
fn choosing_a_practice_for_a_link() {
    let mut m = PracticeMapping::new(vec![
        link("Rounds", PracticeDataType::Int, Some("Japa")),
        link("Rise", PracticeDataType::Time, None),
    ]);
    m.set_user_practice("Rise", "Wake up".into());
    assert_eq!(m.entries[1].user_practice, Some("Wake up".to_string()));
    assert_eq!(sorted(m.mapped.clone()), vec!["Japa".to_string(), "Wake up".to_string()]);
    m.set_user_practice("Rounds", "Mala".into());
    assert_eq!(m.entries[0].user_practice, Some("Mala".to_string()));
    assert_eq!(sorted(m.mapped.clone()), vec!["Mala".to_string(), "Wake up".to_string()]);
    m.set_user_practice("Rise", "".into());
    assert_eq!(m.entries[1].user_practice, None);
    assert_eq!(m.mapped, vec!["Mala".to_string()]);
}

#[test]
fn choosing_the_same_practice_again_drops_it_from_the_mapped() {
    let mut m = PracticeMapping::new(vec![link("Rounds", PracticeDataType::Int, Some("Japa"))]);
    m.set_user_practice("Rounds", "Japa".into());
    assert_eq!(m.entries[0].user_practice, Some("Japa".to_string()));
    assert!(m.mapped.is_empty());
}

#[test]
fn options_of_a_link() {
    let m = PracticeMapping::new(vec![
        link("Rounds", PracticeDataType::Int, Some("Japa")),
        link("More rounds", PracticeDataType::Int, None),
    ]);
    let ups = vec![
        mine("Japa", PracticeDataType::Int),
        mine("Mala", PracticeDataType::Int),
        mine("Wake up", PracticeDataType::Time),
    ];
    assert_eq!(m.options_for(0, &ups), vec![0, 1]);
    assert_eq!(m.options_for(1, &ups), vec![1]);
}

#[test]
fn icons() {
    assert_eq!(practice_icon(PracticeDataType::Int), "icon-rounds");
    assert_eq!(practice_icon(PracticeDataType::Bool), "icon-tick");
    assert_eq!(practice_icon(PracticeDataType::Time), "icon-clock");
    assert_eq!(practice_icon(PracticeDataType::Text), "icon-doc");
    assert_eq!(practice_icon(PracticeDataType::Duration), "icon-clock");
}

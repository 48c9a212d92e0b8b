use sadhana_frontend::release_channel::{
    next_release_channel, parse_release_channel_cookie, release_channel_cookie, toggle_release_channel,
    trim_text, ReleaseChannel, COOKIE_NAME,
};

#[test]
fn parses_preview_cookie() {
    let parsed = parse_release_channel_cookie("foo=bar; sadhana_release_channel=preview");
    assert_eq!(parsed, ReleaseChannel::Preview);
}

#[test]
fn defaults_to_stable_on_missing_cookie() {
    let parsed = parse_release_channel_cookie("foo=bar");
    assert_eq!(parsed, ReleaseChannel::Stable);
}

#[test]
fn channel_names() {
    assert_eq!(ReleaseChannel::Stable.as_str(), "stable");
    assert_eq!(ReleaseChannel::Preview.as_str(), "preview");
    assert_eq!(COOKIE_NAME, "sadhana_release_channel");
}

#[test]
fn written_cookie_reads_back() {
    for channel in [ReleaseChannel::Stable, ReleaseChannel::Preview] {
        let cookie = release_channel_cookie(channel);
        assert_eq!(parse_release_channel_cookie(&cookie), channel);
    }
    assert_eq!(
        release_channel_cookie(ReleaseChannel::Preview),
        "sadhana_release_channel=preview; Path=/; Secure; SameSite=Lax; Max-Age=2592000"
    );
}

#[test]
fn toggling_twice_gives_back_the_channel() {
    assert_eq!(next_release_channel(next_release_channel(ReleaseChannel::Stable)), ReleaseChannel::Stable);
    assert_eq!(toggle_release_channel("sadhana_release_channel=preview"), ReleaseChannel::Stable);
    assert_eq!(toggle_release_channel("a=b"), ReleaseChannel::Preview);
    assert_eq!(toggle_release_channel(""), ReleaseChannel::Preview);
}

#[test]
fn unknown_values_and_odd_pairs_read_as_stable() {
    assert_eq!(parse_release_channel_cookie("sadhana_release_channel=Preview"), ReleaseChannel::Stable);
    assert_eq!(parse_release_channel_cookie("sadhana_release_channel = preview"), ReleaseChannel::Stable);
    assert_eq!(parse_release_channel_cookie("sadhana_release_channel"), ReleaseChannel::Stable);
    assert_eq!(parse_release_channel_cookie(""), ReleaseChannel::Stable);
}

#[test]
fn first_cookie_of_the_name_decides() {
    assert_eq!(
        parse_release_channel_cookie("sadhana_release_channel=stable;sadhana_release_channel=preview"),
        ReleaseChannel::Stable
    );
    assert_eq!(
        parse_release_channel_cookie("  sadhana_release_channel=preview  ;x=y"),
        ReleaseChannel::Preview
    );
    assert_eq!(parse_release_channel_cookie("x=y;sadhana_release_channel=preview=1"), ReleaseChannel::Stable);
}

#[test]
fn trims_white_space() {
    assert_eq!(trim_text("  ab c \n"), "ab c");
    assert_eq!(trim_text("\u{3000}x\u{a0}"), "x");
    assert_eq!(trim_text("   "), "");
}

#[test]
fn pair_after_other_cookies_reads_back() {
    for channel in [ReleaseChannel::Stable, ReleaseChannel::Preview] {
        for other in ["", "a=b", "theme=dark; lang=en", "x"] {
            let cookie = format!("{}; sadhana_release_channel={}", other, channel.as_str());
            assert_eq!(parse_release_channel_cookie(&cookie), channel);
        }
    }
}

#[test]
fn pair_among_other_cookies_reads_back() {
    assert_eq!(parse_release_channel_cookie("sadhana_release_channel=preview; a=b"), ReleaseChannel::Preview);
    assert_eq!(parse_release_channel_cookie("x=y; sadhana_release_channel=preview; a=b"), ReleaseChannel::Preview);
    for channel in [ReleaseChannel::Stable, ReleaseChannel::Preview] {
        for after in ["", "a=b", "sadhana_release_channel=preview", "sadhana_release_channel=stable; z"] {
            let first = format!("sadhana_release_channel={}; {}", channel.as_str(), after);
            assert_eq!(parse_release_channel_cookie(&first), channel);
            for before in ["", "a=b", "theme=dark; lang=en"] {
                let cookie = format!("{}; sadhana_release_channel={}; {}", before, channel.as_str(), after);
                assert_eq!(parse_release_channel_cookie(&cookie), channel);
            }
        }
    }
}

use gnome_session_restore::partial_match::partial_match_similarity;
use gnome_session_restore::similarity::{levenshtein_distance, whole_string_similarity};
use gnome_session_restore::text::str_chars;

fn ws(a: &str, b: &str) -> i64 {
    whole_string_similarity(&str_chars(a), &str_chars(b))
}

#[test]
fn test_pms() {
    println!("{}", partial_match_similarity("org.multimc.MultiMC", "net.lutris.multimc-2"));
    println!("{}", partial_match_similarity("org.multimc.MultiMC", "org.gnome.multiply"));
    println!("{}", partial_match_similarity("battle.net.exe", "net.lutris.battlenet-7"));
    println!("{}", partial_match_similarity("winemine.exe", "wine-winemine"));
    println!("{}", partial_match_similarity("listen.tidal.com", "tidal"));
    println!("{}", partial_match_similarity("Spotify", "tidal"));
    println!("{}", partial_match_similarity("QjackCtl", "org.rncbc.qjackctl"));
    println!("{}", partial_match_similarity("regedit.exe", "wine-regedit"));
}

#[test]
fn partial_match_exact_values() {
    assert_eq!(partial_match_similarity("org.multimc.MultiMC", "net.lutris.multimc-2"), 672753);
    assert_eq!(partial_match_similarity("org.multimc.MultiMC", "org.gnome.multiply"), 0);
    assert_eq!(partial_match_similarity("battle.net.exe", "net.lutris.battlenet-7"), 645189);
    assert_eq!(partial_match_similarity("winemine.exe", "wine-winemine"), 893230);
    assert_eq!(partial_match_similarity("listen.tidal.com", "tidal"), 857576);
    assert_eq!(partial_match_similarity("Spotify", "tidal"), 0);
    assert_eq!(partial_match_similarity("QjackCtl", "org.rncbc.qjackctl"), 655690);
    assert_eq!(partial_match_similarity("regedit.exe", "wine-regedit"), 880196);
}

#[test]
fn whole_string_similarity_symmetric() {
    let pairs = [
        ("org.multimc.MultiMC", "net.lutris.multimc-2"),
        ("kitten", "sitting"),
        ("", "abc"),
        ("firefox", "org.mozilla.firefox"),
        ("a", "a"),
    ];
    for (a, b) in pairs {
        assert_eq!(ws(a, b), ws(b, a));
    }
}

#[test]
fn whole_string_similarity_identical_is_one() {
    for a in ["a", "firefox", "org.gnome.Terminal", "chrome-listen.tidal.com__-Spotify"] {
        assert_eq!(ws(a, a), 1000000);
    }
}

#[test]
fn whole_string_similarity_exact_value() {
    assert_eq!(levenshtein_distance(&str_chars("kitten"), &str_chars("sitting")), 3);
    assert_eq!(ws("kitten", "sitting"), 571428);
}

#[test]
fn partial_match_not_symmetric() {
    let forward = partial_match_similarity("listen.tidal.com", "tidal");
    let backward = partial_match_similarity("tidal", "listen.tidal.com");
    assert_eq!(forward, 857576);
    assert_eq!(backward, 350840);
    assert_ne!(forward, backward);
}

#[test]
fn partial_match_prefers_related_haystack() {
    let related = partial_match_similarity("org.multimc.MultiMC", "net.lutris.multimc-2");
    let unrelated = partial_match_similarity("org.multimc.MultiMC", "org.gnome.multiply");
    assert!(related > unrelated);
}

#[test]
fn short_haystack_sections_score_zero() {
    assert_eq!(partial_match_similarity("identifier.sections", "ab.cd-ef.gh"), 0);
    assert_eq!(partial_match_similarity("org.multimc.MultiMC", "a.b-c"), 0);
    assert_eq!(partial_match_similarity("whatever", "x"), 0);
}

#[test]
fn sim_test() {
    println!("{}", strsim::normalized_levenshtein("chromium-freeworld", "chrome-discord.com__app-discord"));
    println!("{}", strsim::normalized_levenshtein("chromium-freeworld", "chrome-listen.tidal.com__-Spotify"));
    println!("{}", strsim::normalized_levenshtein("java", "jetbrains-clion"));
}

#[test]
fn whole_string_similarity_tracks_float_reference() {
    let pairs = [
        ("org.multimc.MultiMC", "net.lutris.multimc-2"),
        ("kitten", "sitting"),
        ("battle.net.exe", "net.lutris.battlenet-7"),
        ("gnome-terminal-server", "org.gnome.terminal"),
    ];
    for (a, b) in pairs {
        let fixed = ws(a, b) as f64 / 1e6;
        let float = strsim::normalized_levenshtein(a, b);
        assert!((fixed - float).abs() < 1e-5);
    }
}

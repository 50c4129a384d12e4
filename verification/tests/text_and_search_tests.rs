use minigrep::text;
use minigrep::{parse_config, search, Config};

const SAMPLES: [&str; 14] = [
    "", " ", "abc", "  abc  ", "\t\n a b \r\n", "\u{3000}全角\u{3000}", "\u{85}x\u{A0}",
    "\u{2000}\u{200A}y\u{2028}", "\u{200B}z\u{200B}", "\u{1680}q\u{205F}", "#  abc=55 ",
    "a\u{202F}", "\u{0B}\u{0C}k", "=",
];

#[test]
fn trim_agrees_with_std() {
    for s in SAMPLES.iter() {
        assert_eq!(text::trim_str(s), s.trim(), "trim of {:?}", s);
    }
}

#[test]
fn whitespace_agrees_with_std() {
    for c in ['\t', '\n', '\u{0B}', '\u{0C}', '\r', ' ', '\u{85}', '\u{A0}', '\u{1680}', '\u{2000}',
        '\u{2005}', '\u{200A}', '\u{2028}', '\u{2029}', '\u{202F}', '\u{205F}', '\u{3000}',
        '\u{200B}', '\u{180E}', 'a', '\u{FEFF}', '\u{1FFF}', '\u{200C}']
    {
        assert_eq!(text::is_whitespace(c), c.is_whitespace(), "{:?}", c);
    }
}

#[test]
fn contains_and_find_agree_with_std() {
    for s in SAMPLES.iter() {
        for q in ["", "a", "abc", "b c", "=", "全", "\u{3000}"].iter() {
            assert_eq!(text::contains_str(s, q), s.contains(q), "{:?} in {:?}", q, s);
        }
        let expected = s.chars().position(|c| c == '=').unwrap_or(s.chars().count());
        assert_eq!(text::find_char_from(s, '=', 0), expected);
        assert_eq!(text::strip_leading_char(s, '#'), s.trim_start_matches('#'));
        assert_eq!(text::starts_with_ch(s, '#'), s.starts_with('#'));
    }
}

#[test]
fn one_result() {
    let query = "duct";
    let contents = "\
Rust:
safe, fast, productive.
Pick three.";

    assert_eq!(vec!["safe, fast, productive."], search(query, contents));
}

#[test]
fn search_agrees_with_std_lines() {
    let texts = [
        "", "\n", "a\n", "a\nb", "a\r\nb\r\n", "x\r", "\r\n\r\n", "duct\n\nduct tape\r\nno",
        "a\rb\n", "\n\nduct",
    ];
    for t in texts.iter() {
        for q in ["", "duct", "a", "\r"].iter() {
            let expected: Vec<&str> = t.lines().filter(|l| l.contains(q)).collect();
            assert_eq!(search(q, t), expected, "search {:?} in {:?}", q, t);
        }
    }
}

#[test]
fn search_keeps_order_and_case() {
    let contents = "Rust:\nsafe, fast, productive.\nPick three.\nTrust me.";
    assert_eq!(search("rust", contents), vec!["Trust me."]);
    assert_eq!(search("t", contents), vec!["Rust:", "safe, fast, productive.", "Pick three.", "Trust me."]);
}

#[test]
fn config_needs_three_arguments() {
    let args = vec!["prog".to_string(), "needle".to_string()];
    assert_eq!(Config::new(&args).err(), Some("not enough arguments"));
    let args = vec!["prog".to_string(), "needle".to_string(), "poem.txt".to_string()];
    let c = Config::new(&args).ok().unwrap();
    assert_eq!(c.query(), "needle");
    assert_eq!(c.filename(), "poem.txt");
    let c = parse_config(&args);
    assert_eq!(c.query(), "needle");
    assert_eq!(c.filename(), "poem.txt");
}

use dispatch_core::parser::{parse, ParserConfig};

fn bv(s: &str) -> Vec<u8> {
    s.as_bytes().to_vec()
}

fn config() -> ParserConfig {
    ParserConfig {
        mentions: vec![bv("<@100>"), bv("<@!100>")],
        prefixes: vec![bv("~")],
        delimiters: vec![bv(", "), bv(","), bv(" ")],
        case_insensitive: false,
        longest_prefix_first: true,
        trim_whitespace: true,
    }
}

#[test]
fn tilde_roles_parses_to_token_roles_with_empty_args() {
    let cfg = config();
    let inv = parse(&cfg, &bv("~roles")).expect("a command");
    assert_eq!(inv.token, bv("roles"));
    assert_eq!(inv.args, bv(""));
}

#[test]
fn plain_chat_is_no_command() {
    let cfg = config();
    assert!(parse(&cfg, &bv("hello there")).is_none());
    assert!(parse(&cfg, &bv("")).is_none());
}

#[test]
fn mention_acts_as_trigger() {
    let cfg = config();
    let inv = parse(&cfg, &bv("<@100> roles")).expect("a command");
    assert_eq!(inv.token, bv("roles"));
    assert_eq!(inv.args, bv(""));
}

#[test]
fn splits_at_first_delimiter_and_trims() {
    let cfg = config();
    let inv = parse(&cfg, &bv("~assign red, blue")).expect("a command");
    assert_eq!(inv.token, bv("assign"));
    // the second split happens at resolution; the parser hands the rest on
    assert_eq!(inv.args, bv("red, blue"));
}

#[test]
fn comma_delimiter_first_occurrence_wins() {
    let cfg = config();
    let inv = parse(&cfg, &bv("~assign,red blue")).expect("a command");
    assert_eq!(inv.token, bv("assign"));
    assert_eq!(inv.args, bv("red blue"));
}

#[test]
fn comma_space_preferred_over_comma_at_same_position() {
    let cfg = config();
    let inv = parse(&cfg, &bv("~assign, red")).expect("a command");
    assert_eq!(inv.token, bv("assign"));
    // ", " is listed first, so the space belongs to the delimiter
    assert_eq!(inv.args, bv("red"));
}

#[test]
fn longest_prefix_wins_when_configured() {
    let mut cfg = config();
    cfg.prefixes = vec![bv("~"), bv("~~")];
    let inv = parse(&cfg, &bv("~~dog")).expect("a command");
    assert_eq!(inv.token, bv("dog"));
    cfg.longest_prefix_first = false;
    let inv2 = parse(&cfg, &bv("~~dog")).expect("a command");
    // list order wins instead: "~" strips one tilde only
    assert_eq!(inv2.token, bv("~dog"));
}

#[test]
fn case_insensitive_prefix_matching() {
    let mut cfg = config();
    cfg.prefixes = vec![bv("bot:")];
    cfg.case_insensitive = true;
    let inv = parse(&cfg, &bv("BOT: dog")).expect("a command");
    assert_eq!(inv.token, bv("dog"));
}

#[test]
fn whitespace_after_prefix_is_trimmed_when_configured() {
    let cfg = config();
    let inv = parse(&cfg, &bv("~  roles")).expect("a command");
    assert_eq!(inv.token, bv("roles"));
}

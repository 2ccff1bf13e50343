use robots_policy::allow_access;
use robots_policy::matcher::extract_user_agent;
use robots_policy::parse;
use robots_policy::AccessController;

#[test]
fn test_extract_user_agent() {
    // Example: 'Googlebot/2.1' becomes 'Googlebot'
    assert_eq!("Googlebot", extract_user_agent("Googlebot/2.1"));
    assert_eq!("Googlebot", extract_user_agent("Googlebot"));
    assert_eq!("Googlebot-", extract_user_agent("Googlebot-"));
    assert_eq!("Googlebot_", extract_user_agent("Googlebot_"));
    assert_eq!("Googlebot_", extract_user_agent("Googlebot_2.1"));
    assert_eq!("", extract_user_agent("1Googlebot_2.1"));
    assert_eq!("Goo", extract_user_agent("Goo1glebot_2.1"));
    assert_eq!("curl", extract_user_agent("curl/8.7.1"));
}

#[test]
fn test_allow_access() {
    assert_eq!(true, allow_access("User-agent: Xbot\nDisallow: /", "XBot/3.2.1", "/robots.txt"));
    assert_eq!(false, allow_access("User-agent: Xbot\nDisallow: /", "XBot/3.2.1", "/"));
    assert_eq!(true, allow_access("User-agent: Xbot\nDisallow: /", "YBot/3.2.1", "/"));
    assert_eq!(false, allow_access("User-agent: Xbot\nDisallow: /z", "XBot/3.2.1", "/z"));
    assert_eq!(true, allow_access("User-agent: Xbot\nDisallow: /z", "XBot/3.2.1", "/"));
    assert_eq!(true, allow_access("User-agent: Xbot\nDisallow: /z", "XBot/3.2.1", "/w"));
    assert_eq!(false, allow_access("User-agent: Xbot\nDisallow: /", "XBot", "/"));
}

#[test]
fn test_well_known_path_always_allowed() {
    assert!(allow_access("User-agent: *\nDisallow: /", "AnyBot/1.0", "/robots.txt"));
    assert!(allow_access("", "AnyBot/1.0", "/robots.txt"));
    // The short-circuit is collaborator-level: the engine itself may deny it.
    let doc = parse("User-agent: *\nDisallow: /");
    assert!(!doc.is_allowed("AnyBot/1.0", "/robots.txt"));
}

#[test]
fn test_tie_break_favors_allow() {
    let text = "User-agent: *\nAllow: /a\nDisallow: /a";
    assert!(allow_access(text, "AnyBot/1.0", "/a"));
    let flipped = "User-agent: *\nDisallow: /a\nAllow: /a";
    assert!(allow_access(flipped, "AnyBot/1.0", "/a"));
}

#[test]
fn test_longest_match_wins() {
    let text = "User-agent: *\nAllow: /p\nDisallow: /pri";
    assert!(!allow_access(text, "AnyBot/1.0", "/private"));
    let text2 = "User-agent: *\nDisallow: /p\nAllow: /pri";
    assert!(allow_access(text2, "AnyBot/1.0", "/private"));
    assert!(!allow_access(text2, "AnyBot/1.0", "/public"));
}

#[test]
fn test_empty_policy_allows_everything() {
    let doc = parse("");
    assert_eq!(0, doc.groups.len());
    assert!(doc.is_allowed("AnyBot/1.0", "/"));
    assert!(doc.is_allowed("", "/deep/path"));
    assert!(allow_access("", "AnyBot/1.0", "/anything"));
}

#[test]
fn test_parse_is_deterministic() {
    let text = "User-agent: A\nDisallow: /x\n\nUser-agent: *\nAllow: /";
    let d1 = parse(text);
    let d2 = parse(text);
    for ua in ["A/1.0", "B/2.0", "", "a"] {
        for path in ["/x", "/y", "/", ""] {
            assert_eq!(d1.is_allowed(ua, path), d2.is_allowed(ua, path));
        }
    }
}

#[test]
fn test_multi_agent_group() {
    let text = "User-agent: A\nUser-agent: B\nDisallow: /x";
    assert_eq!(false, allow_access(text, "A/1.0", "/x"));
    assert_eq!(false, allow_access(text, "B/1.0", "/x"));
    assert_eq!(true, allow_access(text, "A/1.0", "/y"));
    assert_eq!(true, allow_access(text, "B/1.0", "/y"));
    assert_eq!(true, allow_access(text, "C/1.0", "/x"));
}

#[test]
fn test_agent_adjacency_broken_by_content() {
    // The second User-agent line follows a directive, so it starts a new group.
    let text = "User-agent: A\nDisallow: /x\nUser-agent: B\nDisallow: /y";
    assert!(allow_access(text, "B/1.0", "/x"));
    assert!(!allow_access(text, "B/1.0", "/y"));
    assert!(!allow_access(text, "A/1.0", "/x"));
    assert!(allow_access(text, "A/1.0", "/y"));
}

#[test]
fn test_wildcard_group_fallback() {
    let text = "User-agent: Xbot\nDisallow: /a\n\nUser-agent: *\nDisallow: /b";
    // Exact group wins over the wildcard group.
    assert!(!allow_access(text, "XBot/1.0", "/a"));
    assert!(allow_access(text, "XBot/1.0", "/b"));
    // Unmatched agents fall back to the wildcard group.
    assert!(allow_access(text, "Other/1.0", "/a"));
    assert!(!allow_access(text, "Other/1.0", "/b"));
    // The empty token matches only the wildcard group.
    assert!(!allow_access(text, "1nameless", "/b"));
}

#[test]
fn test_first_group_wins_on_equal_tier() {
    let text = "User-agent: A\nDisallow: /\n\nUser-agent: A\nAllow: /";
    assert!(!allow_access(text, "A/1.0", "/"));
}

#[test]
fn test_star_wildcard_in_pattern() {
    let text = "User-agent: *\nDisallow: /private*/data";
    assert!(!allow_access(text, "AnyBot/1.0", "/privateX/data"));
    assert!(!allow_access(text, "AnyBot/1.0", "/private/data"));
    assert!(!allow_access(text, "AnyBot/1.0", "/private123/data/file"));
    assert!(allow_access(text, "AnyBot/1.0", "/private"));
    assert!(allow_access(text, "AnyBot/1.0", "/public/data"));
}

#[test]
fn test_end_anchor() {
    let text = "User-agent: *\nDisallow: /*.php$";
    assert!(!allow_access(text, "AnyBot/1.0", "/index.php"));
    assert!(!allow_access(text, "AnyBot/1.0", "/a/b.php"));
    assert!(allow_access(text, "AnyBot/1.0", "/index.php3"));
    assert!(allow_access(text, "AnyBot/1.0", "/index.html"));
}

#[test]
fn test_dollar_only_special_as_last_character() {
    let text = "User-agent: *\nDisallow: /a$b";
    // The mid-pattern dollar is a literal character.
    assert!(!allow_access(text, "AnyBot/1.0", "/a$b"));
    assert!(allow_access(text, "AnyBot/1.0", "/ab"));
}

#[test]
fn test_empty_disallow_is_allow_all() {
    let text = "User-agent: *\nDisallow:";
    assert!(allow_access(text, "AnyBot/1.0", "/"));
    assert!(allow_access(text, "AnyBot/1.0", "/anything"));
}

#[test]
fn test_comments_and_whitespace() {
    let text = "User-agent: Xbot # our crawler\n  Disallow:   /secret   \n# full comment line\nAllow: /secret/ok";
    assert!(!allow_access(text, "XBot/1.0", "/secret"));
    assert!(allow_access(text, "XBot/1.0", "/secret/ok"));
    assert!(allow_access(text, "XBot/1.0", "/open"));
}

#[test]
fn test_case_insensitive_keys_and_agents() {
    let text = "USER-AGENT: xBOT\nDISALLOW: /q";
    assert!(!allow_access(text, "XbOt/1.0", "/q"));
    assert!(allow_access(text, "XbOt/1.0", "/r"));
}

#[test]
fn test_directive_before_any_group_is_ignored() {
    let text = "Disallow: /\nUser-agent: A\nAllow: /";
    assert!(allow_access(text, "A/1.0", "/"));
    assert!(allow_access(text, "B/1.0", "/"));
}

#[test]
fn test_unrecognized_lines_do_not_close_a_group() {
    let text = "User-agent: A\nDisallow: /x\nCrawl-delay: 10\nDisallow: /y";
    assert!(!allow_access(text, "A/1.0", "/x"));
    assert!(!allow_access(text, "A/1.0", "/y"));
    assert!(allow_access(text, "A/1.0", "/z"));
}

#[test]
fn test_malformed_agent_block_is_skipped() {
    // A User-agent line with an empty token opens no group; its directives
    // fall to no group and are dropped.
    let text = "User-agent:\nDisallow: /x";
    let doc = parse(text);
    assert_eq!(0, doc.groups.len());
    assert!(doc.is_allowed("AnyBot/1.0", "/x"));
}

#[test]
fn test_blank_lines_keep_agent_adjacency() {
    // Only non-blank, non-comment content separates one User-agent block
    // from the next; a blank line between two User-agent lines leaves them
    // in the same group.
    let text = "User-agent: A\n\nUser-agent: B\nDisallow: /x";
    let doc = parse(text);
    assert_eq!(1, doc.groups.len());
    assert!(!doc.is_allowed("A/1.0", "/x"));
    assert!(!doc.is_allowed("B/1.0", "/x"));
}

#[test]
fn test_exact_group_beats_earlier_wildcard() {
    let text = "User-agent: *\nDisallow: /a\n\nUser-agent: Xbot\nDisallow: /b";
    assert!(allow_access(text, "XBot/1.0", "/a"));
    assert!(!allow_access(text, "XBot/1.0", "/b"));
    assert!(!allow_access(text, "Other/1.0", "/a"));
}

#[test]
fn test_access_controller_trait() {
    let doc = parse("User-agent: Xbot\nDisallow: /z");
    assert_eq!(false, doc.allow("XBot/3.2.1", "/z"));
    assert_eq!(true, doc.allow("XBot/3.2.1", "/"));
    assert_eq!(true, doc.allow("YBot/3.2.1", "/z"));
}

#[test]
fn test_carriage_returns_are_trimmed() {
    let text = "User-agent: Xbot\r\nDisallow: /z\r\n";
    assert!(!allow_access(text, "XBot/1.0", "/z"));
    assert!(allow_access(text, "XBot/1.0", "/y"));
}

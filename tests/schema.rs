use metastructure::schema::{parse_cap_size, parse_pii_kind, str_eq, CapSize, PiiKind};

#[test]
fn parse_cap_size_known_names() {
    assert_eq!(parse_cap_size("enumlike"), Some(CapSize::EnumLike));
    assert_eq!(parse_cap_size("summary"), Some(CapSize::Summary));
    assert_eq!(parse_cap_size("message"), Some(CapSize::Message));
    assert_eq!(parse_cap_size("symbol"), Some(CapSize::Symbol));
    assert_eq!(parse_cap_size("path"), Some(CapSize::Path));
    assert_eq!(parse_cap_size("short_path"), Some(CapSize::ShortPath));
}

#[test]
fn parse_cap_size_unknown_name() {
    assert_eq!(parse_cap_size("huge"), None);
    assert_eq!(parse_cap_size(""), None);
    assert_eq!(parse_cap_size("Summary"), None);
}

#[test]
fn parse_pii_kind_known_names() {
    assert_eq!(parse_pii_kind("freeform"), Some(PiiKind::Freeform));
    assert_eq!(parse_pii_kind("ip"), Some(PiiKind::Ip));
    assert_eq!(parse_pii_kind("id"), Some(PiiKind::Id));
    assert_eq!(parse_pii_kind("username"), Some(PiiKind::Username));
    assert_eq!(parse_pii_kind("hostname"), Some(PiiKind::Hostname));
    assert_eq!(parse_pii_kind("sensitive"), Some(PiiKind::Sensitive));
    assert_eq!(parse_pii_kind("name"), Some(PiiKind::Name));
    assert_eq!(parse_pii_kind("email"), Some(PiiKind::Email));
    assert_eq!(parse_pii_kind("location"), Some(PiiKind::Location));
    assert_eq!(parse_pii_kind("databag"), Some(PiiKind::Databag));
}

#[test]
fn parse_pii_kind_unknown_name() {
    assert_eq!(parse_pii_kind("password"), None);
    assert_eq!(parse_pii_kind("IP"), None);
}

#[test]
fn str_eq_compares_characters() {
    assert!(str_eq("abc", "abc"));
    assert!(!str_eq("abc", "abd"));
    assert!(!str_eq("abc", "ab"));
}

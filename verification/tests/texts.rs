use nexp_compiler::naming::{
    encode, full_router_path, handler_alias_of, identifier_from, is_alphanumeric_char, normalize,
    rel_path_to_endpoint, route_name_to_identifier, strip_extensions,
    unique_route_handler_alias,
};
use nexp_compiler::error::ErrorKind;
use nexp_compiler::text::{
    chars_of, contains_text, matches_at, precedes_or_equals, replace, same_text,
    split_text, starts_with, strip_prefix, trim,
};
use nexp_compiler::tree::{is_virtual_group_name, split_last};

#[test]
fn chars_of_a_text() {
    let v = chars_of("héllo");
    assert_eq!(v, vec!['h', 'é', 'l', 'l', 'o']);
    assert_eq!(chars_of(""), Vec::<char>::new());
}

#[test]
fn same_text_compares_characters() {
    assert!(same_text("abc", "abc"));
    assert!(!same_text("abc", "abd"));
    assert!(!same_text("abc", "ab"));
    assert!(same_text("", ""));
}

#[test]
fn prefixes_and_occurrences() {
    assert!(starts_with("app/users", "app/"));
    assert!(starts_with("app", ""));
    assert!(!starts_with("ap", "app"));
    assert!(!starts_with("xapp/", "app/"));
    assert!(matches_at(&chars_of("abcabc"), 3, &chars_of("abc")));
    assert!(!matches_at(&chars_of("abcabc"), 4, &chars_of("abc")));
    assert!(matches_at(&chars_of("abc"), 3, &chars_of("")));
    assert!(!matches_at(&chars_of("abc"), 4, &chars_of("")));
}

#[test]
fn strip_prefix_only_at_the_start() {
    assert_eq!(strip_prefix("/a/b/", "/a"), "/b/");
    assert_eq!(strip_prefix("/a/b/a/", "/a"), "/b/a/");
    assert_eq!(strip_prefix("/b/a/", "/a"), "/b/a/");
    assert_eq!(strip_prefix("/a", "/a"), "");
    assert_eq!(strip_prefix("/a", ""), "/a");
}

#[test]
fn replace_takes_every_occurrence_from_the_left() {
    assert_eq!(replace("a.tsb.ts", ".ts", ""), "ab");
    assert_eq!(replace("aaa", "aa", "b"), "ba");
    assert_eq!(replace("abc", "x", "y"), "abc");
    assert_eq!(replace("abc", "", "y"), "abc");
    assert_eq!(replace("", "a", "y"), "");
    assert_eq!(replace("xMx", "M", "long text"), "xlong textx");
    assert_eq!(replace("ab", "abc", "y"), "ab");
}

#[test]
fn split_keeps_empty_pieces() {
    assert_eq!(split_text("a/b/c", '/'), vec!["a", "b", "c"]);
    assert_eq!(split_text("", '/'), vec![""]);
    assert_eq!(split_text("/", '/'), vec!["", ""]);
    assert_eq!(split_text("a//b/", '/'), vec!["a", "", "b", ""]);
    assert_eq!(split_text("abc", '/'), vec!["abc"]);
}

#[test]
fn contains_text_finds_equal_strings() {
    let names = vec!["route.ts".to_string(), "route.js".to_string()];
    assert!(contains_text(&names, "route.js"));
    assert!(!contains_text(&names, "route.tsx"));
    assert!(!contains_text(&vec![], "route.ts"));
}

#[test]
fn order_of_texts() {
    assert!(precedes_or_equals("a", "b"));
    assert!(!precedes_or_equals("b", "a"));
    assert!(precedes_or_equals("a", "a"));
    assert!(precedes_or_equals("", "a"));
    assert!(!precedes_or_equals("a", ""));
    assert!(precedes_or_equals("ab", "abc"));
    assert!(!precedes_or_equals("abc", "ab"));
    assert!(precedes_or_equals("B", "a"));
    assert!(precedes_or_equals("z", "é"));
}

#[test]
fn trim_drops_white_space_at_both_ends() {
    assert_eq!(trim("  a b \t\n"), "a b");
    assert_eq!(trim("\u{a0}x\u{3000}"), "x");
    assert_eq!(trim("   "), "");
    assert_eq!(trim(""), "");
    assert_eq!(trim("x"), "x");
}

#[test]
fn identifiers_of_names() {
    assert_eq!(route_name_to_identifier("users").unwrap(), "users");
    assert_eq!(route_name_to_identifier("user-profile").unwrap(), "user_profile");
    assert_eq!(route_name_to_identifier("  a-b-c ").unwrap(), "a_b_c");
    assert_eq!(route_name_to_identifier("a(b)").unwrap(), "ab");
    assert_eq!(route_name_to_identifier("v1.0").unwrap(), "v1_0");
    assert_eq!(route_name_to_identifier("[id]").unwrap(), "_id_");
    assert_eq!(route_name_to_identifier("my route").unwrap(), "my_route");
    assert_eq!(route_name_to_identifier("a_b$c").unwrap(), "a_b$c");
    assert_eq!(route_name_to_identifier("caf\u{e9}").unwrap(), "caf_");
    assert_eq!(route_name_to_identifier("").unwrap(), "");
    let err = route_name_to_identifier("(admin)").unwrap_err();
    assert_eq!(err.kind, ErrorKind::InvalidRouteName);
    assert_eq!(err.path, "(admin)");
    assert_eq!(err.message(), "Virtual group should not be used as a route name: (admin)");
    let err = route_name_to_identifier(" (admin) ").unwrap_err();
    assert_eq!(err.kind, ErrorKind::InvalidRouteName);
    assert_eq!(err.path, "(admin)");
    assert_eq!(identifier_from(" a ").unwrap(), "_a_");
    assert!(identifier_from("()").is_err());
    assert_eq!(identifier_from("(").unwrap(), "");
    assert_eq!(normalize("a/b.c-d(e)"), "a_b_c_de");
    assert_eq!(normalize(""), "");
}

#[test]
fn identifiers_hold_identifier_characters_only() {
    for name in ["v1.0", "[id]", "my route", "a/b\\c", "\u{1f600}x", "~!@#%^&*+=", "tab\there"] {
        let id = route_name_to_identifier(name).unwrap();
        assert!(
            id.chars().all(|c| c.is_ascii_alphanumeric() || c == '_' || c == '$'),
            "{:?} gives {:?}",
            name,
            id
        );
    }
}

#[test]
fn letters_and_digits_of_ascii() {
    for c in ['a', 'z', 'A', 'Z', '0', '9', 'm', '5'] {
        assert!(is_alphanumeric_char(c));
    }
    for c in ['_', '$', '/', '-', '.', ' ', '{', '`', '@', '[', ':', '\u{e9}', '\u{662}'] {
        assert!(!is_alphanumeric_char(c));
    }
}

#[test]
fn aliases_of_paths() {
    assert_eq!(unique_route_handler_alias("app/users"), "app_users");
    assert_eq!(unique_route_handler_alias("app/a/b"), "app_a_b");
    assert_eq!(unique_route_handler_alias("app/a_b"), "app_a$5fb");
    assert_eq!(unique_route_handler_alias("app/a-b"), "app_a$2db");
    assert_eq!(unique_route_handler_alias("app/a.b"), "app_a$2eb");
    assert_eq!(
        unique_route_handler_alias("app/(admin)/user-list/v1.0"),
        "app_$28admin$29_user$2dlist_v1$2e0"
    );
    assert_eq!(unique_route_handler_alias("app/[id]"), "app_$5bid$5d");
    assert_eq!(unique_route_handler_alias("caf\u{e9}/\u{1f600}$"), "caf$u0000e9_$u01f600$24");
    assert_eq!(unique_route_handler_alias(""), "");
    assert_eq!(encode("a/b_c", true), "a_b$5fc");
    assert_eq!(encode("a/b_c", false), "a$2fb$5fc");
    assert_eq!(encode("\u{0}\u{7f}\u{80}\u{10ffff}", false), "$00$7f$u000080$u10ffff");
}

#[test]
fn aliases_of_handlers() {
    assert_eq!(handler_alias_of("app/users", "GET"), "app_users_GET");
    assert_eq!(handler_alias_of("app", "default"), "app_default");
    assert_eq!(handler_alias_of("app/a", "b_GET"), "app_a_b$5fGET");
    assert_eq!(handler_alias_of("app/a_b", "GET"), "app_a$5fb_GET");
    assert_eq!(handler_alias_of("app/a/b", "GET"), "app_a_b_GET");
    assert_eq!(handler_alias_of("", "$x"), "_$24x");
}

#[test]
fn aliases_of_different_handlers_differ() {
    let pairs = [
        ("app/a/b", "GET"),
        ("app/a_b", "GET"),
        ("app/a-b", "GET"),
        ("app/a.b", "GET"),
        ("app/(a)/b", "GET"),
        ("app/a", "b_GET"),
        ("app/a", "b/GET"),
        ("app/a/", "bGET"),
        ("app/a$5fb", "GET"),
        ("app/a$", "5fb_GET"),
        ("app", "a_b_GET"),
        ("", "app_a_b_GET"),
    ];
    for (i, (p, n)) in pairs.iter().enumerate() {
        for (q, m) in pairs.iter().skip(i + 1) {
            assert_ne!(handler_alias_of(p, n), handler_alias_of(q, m), "{p} {n} and {q} {m}");
        }
    }
}

#[test]
fn module_specifiers() {
    assert_eq!(strip_extensions("route.ts"), "route");
    assert_eq!(strip_extensions("route.js"), "route");
    assert_eq!(strip_extensions("middlewares.tsx"), "middlewaresx");
    assert_eq!(strip_extensions("a.ts.js"), "a");
    assert_eq!(strip_extensions("a.t.jss"), "a.ts");
    assert_eq!(strip_extensions("plain"), "plain");
}

#[test]
fn virtual_groups() {
    assert!(is_virtual_group_name("(admin)"));
    assert!(is_virtual_group_name("()"));
    assert!(!is_virtual_group_name("("));
    assert!(!is_virtual_group_name(")"));
    assert!(!is_virtual_group_name("(admin"));
    assert!(!is_virtual_group_name("admin)"));
    assert!(!is_virtual_group_name(""));
    assert!(!is_virtual_group_name(" (admin)"));
}

#[test]
fn endpoints_of_route_files() {
    assert_eq!(rel_path_to_endpoint("app/route.ts", "app").unwrap(), "/");
    assert_eq!(rel_path_to_endpoint("app/users/route.ts", "app").unwrap(), "/users/");
    assert_eq!(rel_path_to_endpoint("app/a/b/route.js", "app").unwrap(), "/a/b/");
    assert_eq!(rel_path_to_endpoint("app/(g)/a/(h)/b/route.ts", "app").unwrap(), "/a/b/");
    assert_eq!(rel_path_to_endpoint("app/(g)/route.ts", "app").unwrap(), "/");
    assert_eq!(rel_path_to_endpoint("app/route.ts/route.ts", "app").unwrap(), "/route.ts/");
    assert_eq!(rel_path_to_endpoint("app/a//route.ts", "app").unwrap(), "/a//");
    assert_eq!(rel_path_to_endpoint("routes/x/handler.ts", "routes").unwrap(), "/x/");
    assert_eq!(rel_path_to_endpoint("app/", "app").unwrap(), "/");
    for bad in ["application/route.ts", "app", "src/app/route.ts", ""] {
        let err = rel_path_to_endpoint(bad, "app").unwrap_err();
        assert_eq!(err.kind, ErrorKind::PathResolutionError);
        assert_eq!(err.path, bad);
    }
}

#[test]
fn mount_paths_of_nodes() {
    assert_eq!(full_router_path("app", "app"), "");
    assert_eq!(full_router_path("app/a", "app"), "/a");
    assert_eq!(full_router_path("app/a/(g)/b", "app"), "/a/(g)/b");
    assert_eq!(full_router_path("other/a", "app"), "/other/a");
    assert_eq!(full_router_path("application", "app"), "/application");
    assert_eq!(full_router_path("app/", "app"), "/");
}

#[test]
fn paths_split_at_the_last_slash() {
    assert_eq!(split_last("app/users/route.ts"), ("app/users".to_string(), "route.ts".to_string()));
    assert_eq!(split_last("app"), ("".to_string(), "app".to_string()));
    assert_eq!(split_last(""), ("".to_string(), "".to_string()));
    assert_eq!(split_last("/a"), ("".to_string(), "a".to_string()));
    assert_eq!(split_last("a/"), ("a".to_string(), "".to_string()));
}

use alfwin::alfred::{debug_items, AlfredItem, AlfredItemType, ItemIconType};
use alfwin::intellij::{intellij_items, lines_are_utf8, project_alfred_item};
use alfwin::launch::{
    file_stem_of, icon_lookup, push_path, IconLookup, LaunchAction, LaunchTab, LaunchWindow,
    TabLauncher,
};
use alfwin::results::{listed_windows, results, window_actions, WindowInfo, WindowName};
use alfwin::tabs::{parse_tab_text, parse_tabs, tab_output_is_ok, tab_text_is_ok};
use alfwin::text::{
    chars_of, decimal_string, is_whitespace, parse_usize_chars, replace, to_ascii_lowercase,
    trim_chars,
};

fn chrome(window: usize, tab: usize, name: &str) -> LaunchAction {
    LaunchAction::Chrome(LaunchTab { name: name.to_string(), window, tab })
}

fn iterm(window: usize, tab: usize, name: &str) -> LaunchAction {
    LaunchAction::iTerm(LaunchTab { name: name.to_string(), window, tab })
}

fn window(process: &str, window_name: &str) -> LaunchAction {
    LaunchAction::Window(LaunchWindow {
        process: process.to_string(),
        window_name: window_name.to_string(),
    })
}

fn tab_fields(a: &LaunchAction) -> (&'static str, usize, usize, String) {
    match a {
        LaunchAction::Chrome(t) => ("chrome", t.window, t.tab, t.name.clone()),
        LaunchAction::iTerm(t) => ("iterm", t.window, t.tab, t.name.clone()),
        LaunchAction::Window(w) => ("window", 0, 0, w.process.clone()),
    }
}

/// The tabs of a listing, or `None` where the listing is refused.
fn parse(text: &str, typ: TabLauncher) -> Option<Vec<(&'static str, usize, usize, String)>> {
    let bytes = text.as_bytes().to_vec();
    if !tab_output_is_ok(&bytes) {
        return None;
    }
    Some(parse_tabs(bytes, typ).unwrap().iter().map(tab_fields).collect())
}

// ---- item texts of each kind of action ----

#[test]
fn chrome_tab_texts() {
    let a = chrome(1, 12, "GitHub Home");
    assert_eq!(a.uid(), "1-12-github home");
    assert_eq!(a.name(), "GitHub Home - Chrome Tab");
    assert_eq!(a.process_name(), "Google Chrome");
    assert_eq!(a.args(), "open-chrome 1 12");
    let icon = a.icon(&IconLookup::new());
    assert_eq!(icon.typ, ItemIconType::IconForFileAtPath);
    assert_eq!(icon.path, "/Applications/Google Chrome.app");
}

#[test]
fn iterm_session_texts() {
    let a = iterm(3, 0, "Build LOG");
    assert_eq!(a.uid(), "3-0-build log");
    assert_eq!(a.name(), "Build LOG - iTerm Session");
    assert_eq!(a.process_name(), "iTerm");
    assert_eq!(a.args(), "open-iterm 3 0");
    assert_eq!(a.icon(&IconLookup::new()).path, "/Applications/iTerm.app");
}

#[test]
fn window_texts() {
    let a = window("Finder", "My Downloads");
    assert_eq!(a.uid(), "finder-my downloads");
    assert_eq!(a.name(), "My Downloads - Finder");
    assert_eq!(a.process_name(), "Finder");
    assert_eq!(a.args(), "open \"Finder\" \"My Downloads\"");
}

#[test]
fn uid_lowercases_only_ascii() {
    let a = window("ÄPP", "Straße ÉTÉ");
    assert_eq!(a.uid(), "Äpp-straße ÉtÉ");
}

#[test]
fn window_icon_is_looked_up_by_process() {
    let mut icons = IconLookup::new();
    icons.insert("Finder".to_string(), "/System/Library/CoreServices/Finder.app".to_string());
    assert_eq!(window("Finder", "x").icon(&icons).path, "/System/Library/CoreServices/Finder.app");
    assert_eq!(window("Mail", "x").icon(&icons).path, "");
    assert_eq!(window("Mail", "x").icon(&icons).typ, ItemIconType::IconForFileAtPath);
}

#[test]
fn alfred_item_of_action() {
    let item: AlfredItem = chrome(2, 5, "Docs").alfred_item(&IconLookup::new());
    assert_eq!(item.uid, "2-5-docs");
    assert_eq!(item.typ, AlfredItemType::Default);
    assert_eq!(item.title, "Docs - Chrome Tab");
    assert_eq!(item.autocomplete, "Docs - Chrome Tab");
    assert_eq!(item.subtitle, "Google Chrome");
    assert_eq!(item.arg, "open-chrome 2 5");
}

// ---- icon lookup ----

#[test]
fn icon_lookup_has_fixed_entries_and_later_wins() {
    let apps = vec![
        ("Safari.app".to_string(), "/Applications/Safari.app".to_string()),
        ("Safari.app".to_string(), "/System/Applications/Safari.app".to_string()),
        ("Alfred Preferences.app".to_string(), "/Applications/Alfred 5.app".to_string()),
    ];
    let icons = icon_lookup("/Users/me", apps);
    assert_eq!(icons.get(&"Safari".to_string()), Some("/System/Applications/Safari.app".to_string()));
    assert_eq!(
        icons.get(&"IntelliJ IDEA".to_string()),
        Some("/Users/me/Applications/JetBrains Toolbox/IntelliJ IDEA Ultimate.app".to_string())
    );
    assert_eq!(icons.get(&"Alfred Preferences".to_string()), Some("/Applications/Alfred 5.app".to_string()));
    assert_eq!(icons.get(&"Mail".to_string()), None);
}

#[test]
fn icon_lookup_without_apps() {
    let icons = icon_lookup("/home/me/", vec![]);
    assert_eq!(icons.get(&"Alfred Preferences".to_string()), Some("/Applications/Alfred 4.app".to_string()));
    assert_eq!(
        icons.get(&"IntelliJ IDEA".to_string()),
        Some("/home/me/Applications/JetBrains Toolbox/IntelliJ IDEA Ultimate.app".to_string())
    );
}

#[test]
fn lookup_gives_back_what_was_written() {
    let mut icons = IconLookup::new();
    icons.insert("A".to_string(), "1".to_string());
    icons.insert("B".to_string(), "2".to_string());
    icons.insert("A".to_string(), "3".to_string());
    assert_eq!(icons.get(&"A".to_string()), Some("3".to_string()));
    assert_eq!(icons.get(&"B".to_string()), Some("2".to_string()));
}

// ---- tab listings ----

#[test]
fn tabs_are_parsed_in_order() {
    let r = parse("1,1,Inbox\n1,2,News\n2,1,Docs\n", TabLauncher::Chrome).unwrap();
    assert_eq!(
        r,
        vec![
            ("chrome", 1, 1, "Inbox".to_string()),
            ("chrome", 1, 2, "News".to_string()),
            ("chrome", 2, 1, "Docs".to_string()),
        ]
    );
}

#[test]
fn tab_names_keep_their_commas() {
    let r = parse("4,7,a, b,c", TabLauncher::iTerm).unwrap();
    assert_eq!(r, vec![("iterm", 4, 7, "a, b,c".to_string())]);
}

#[test]
fn repeated_names_keep_the_first() {
    let r = parse("1,1,Inbox\n2,3,Inbox\n1,2,News\n3,3,News", TabLauncher::Chrome).unwrap();
    assert_eq!(
        r,
        vec![("chrome", 1, 1, "Inbox".to_string()), ("chrome", 1, 2, "News".to_string())]
    );
}

#[test]
fn surrounding_whitespace_and_empty_lines_are_skipped() {
    let r = parse("\n  \n1,1,A\n\n2,2,B \n\t\n", TabLauncher::Chrome).unwrap();
    assert_eq!(r, vec![("chrome", 1, 1, "A".to_string()), ("chrome", 2, 2, "B".to_string())]);
}

#[test]
fn empty_listing_gives_nothing() {
    assert_eq!(parse("", TabLauncher::Chrome).unwrap(), vec![]);
    assert_eq!(parse(" \n \n", TabLauncher::iTerm).unwrap(), vec![]);
}

#[test]
fn plus_sign_is_accepted_as_rust_parses_it() {
    let r = parse("+3,+04,x", TabLauncher::Chrome).unwrap();
    assert_eq!(r, vec![("chrome", 3, 4, "x".to_string())]);
}

#[test]
fn invalid_utf8_gives_none() {
    assert!(parse_tabs(vec![b'1', b',', 0xff, b'\n'], TabLauncher::Chrome).is_none());
    assert!(parse_tabs(vec![0xc3], TabLauncher::iTerm).is_none());
}

#[test]
fn invalid_utf8_is_refused() {
    assert!(!tab_output_is_ok(&vec![b'1', b',', 0xff, b'\n']));
    assert!(tab_output_is_ok(&b"1,1,\xc3\xa9t\xc3\xa9".to_vec()));
}

#[test]
fn malformed_lines_are_refused() {
    for text in ["x,1,A", "1,2", "1", "1,y,A", "-1,2,A", " 1,2,A\n3 ,4,B", "1,,A", "99999999999999999999999,1,A"] {
        assert_eq!(parse(text, TabLauncher::Chrome), None, "{:?}", text);
        assert!(!tab_text_is_ok(text));
    }
}

#[test]
fn empty_name_is_a_tab() {
    let r = parse("1,2,", TabLauncher::Chrome).unwrap();
    assert_eq!(r, vec![("chrome", 1, 2, "".to_string())]);
}

#[test]
fn parse_tab_text_on_good_text() {
    assert!(tab_text_is_ok("5,6,Z\n"));
    let v = parse_tab_text("5,6,Z\n", TabLauncher::iTerm);
    assert_eq!(v.iter().map(tab_fields).collect::<Vec<_>>(), vec![("iterm", 5, 6, "Z".to_string())]);
}

#[test]
fn parsed_tab_uid_reads_back_its_numbers() {
    let r = parse_tabs(b"12,345,Mail".to_vec(), TabLauncher::Chrome).unwrap();
    assert_eq!(r[0].uid(), "12-345-mail");
    assert_eq!(r[0].args(), "open-chrome 12 345");
}

// ---- windows and the whole answer ----

#[test]
fn only_layer_zero_windows_are_listed() {
    let infos = vec![
        WindowInfo { app_name: "Dock".to_string(), win_name: "Dock".to_string(), layer: Some(20) },
        WindowInfo { app_name: "Finder".to_string(), win_name: "Home".to_string(), layer: Some(0) },
        WindowInfo { app_name: "X".to_string(), win_name: "Y".to_string(), layer: None },
        WindowInfo { app_name: "Mail".to_string(), win_name: "Inbox".to_string(), layer: Some(0) },
    ];
    let names: Vec<(String, String)> =
        listed_windows(&infos).into_iter().map(|w| (w.app_name, w.win_name)).collect();
    assert_eq!(
        names,
        vec![("Finder".to_string(), "Home".to_string()), ("Mail".to_string(), "Inbox".to_string())]
    );
}

#[test]
fn windows_become_window_actions() {
    let w = vec![WindowName { app_name: "Finder".to_string(), win_name: "Home".to_string() }];
    let a = window_actions(&w);
    assert_eq!(a.len(), 1);
    assert_eq!(a[0].name(), "Home - Finder");
}

#[test]
fn results_put_windows_then_iterm_then_chrome() {
    let w = vec![WindowName { app_name: "Finder".to_string(), win_name: "Home".to_string() }];
    let items = results(w, b"1,1,Tab".to_vec(), b"1,1,Shell".to_vec(), &IconLookup::new());
    let titles: Vec<String> = items.items.iter().map(|i| i.title.clone()).collect();
    assert_eq!(titles, vec!["Home - Finder", "Shell - iTerm Session", "Tab - Chrome Tab"]);
}

#[test]
fn debug_answer_is_the_desktop() {
    let items = debug_items();
    assert_eq!(items.items.len(), 1);
    let i = &items.items[0];
    assert_eq!(i.uid, "desktop");
    assert_eq!(i.typ, AlfredItemType::File);
    assert_eq!(i.title, "Desktop");
    assert_eq!(i.subtitle, "~/Desktop");
    assert_eq!(i.arg, "~/Desktop");
    assert_eq!(i.autocomplete, "Desktop");
    assert_eq!(i.icon.path, "~/Desktop");
    assert_eq!(i.icon.typ, ItemIconType::IconForFileAtPath);
}

// ---- IntelliJ projects ----

#[test]
fn intellij_projects_are_listed() {
    let content = b"<application>\n  <component name=\"RecentProjectsManager\">\n      <entry key=\"$USER_HOME$/work/alfwin\">\n    <entry key=\"/opt/src/tool\">  \n  <entry key=\"bad key\">\n</application>";
    let items = intellij_items(content.to_vec(), "/Users/kurt").unwrap();
    assert_eq!(items.items.len(), 2);
    let a = &items.items[0];
    assert_eq!(a.uid, "/Users/kurt/work/alfwin");
    assert_eq!(a.title, "work alfwin");
    assert_eq!(a.subtitle, "IntelliJ");
    assert_eq!(a.arg, "open-intellij \"/Users/kurt/work/alfwin\"");
    assert_eq!(a.autocomplete, " work ");
    assert_eq!(a.icon.path, "/Applications/IntelliJ IDEA.app");
    assert_eq!(a.typ, AlfredItemType::Default);
    assert_eq!(items.items[1].title, "src tool");
}

#[test]
fn intellij_invalid_line_is_refused() {
    let content = vec![b'a', b'\n', 0xc3, b'\n'];
    assert!(!lines_are_utf8(&content));
    assert!(lines_are_utf8(&b"a\n\xc3\xa9\n".to_vec()));
}

#[test]
fn intellij_empty_file_lists_nothing() {
    assert_eq!(intellij_items(vec![], "/h").unwrap().items.len(), 0);
}

#[test]
fn project_titles_of_short_paths() {
    let a = project_alfred_item("proj");
    assert_eq!(a.title, "proj");
    assert_eq!(a.autocomplete, "  ");
    let b = project_alfred_item("/proj");
    assert_eq!(b.title, " proj");
    assert_eq!(b.autocomplete, "  ");
    let c = project_alfred_item("a/b/c/d");
    assert_eq!(c.title, "c d");
    assert_eq!(c.autocomplete, " c ");
}

// ---- text primitives ----

#[test]
fn decimal_strings() {
    assert_eq!(decimal_string(0), "0");
    assert_eq!(decimal_string(7), "7");
    assert_eq!(decimal_string(10), "10");
    assert_eq!(decimal_string(1234567), "1234567");
    assert_eq!(decimal_string(usize::MAX), usize::MAX.to_string());
}

#[test]
fn decimal_reads_back() {
    for n in [0usize, 9, 10, 99, 100, 4096, 1234567, usize::MAX] {
        let v = chars_of(&decimal_string(n));
        assert_eq!(parse_usize_chars(&v, 0, v.len()), Some(n));
    }
}

#[test]
fn usize_parsing_edges() {
    let p = |s: &str| {
        let v = chars_of(s);
        parse_usize_chars(&v, 0, v.len())
    };
    assert_eq!(p("+"), None);
    assert_eq!(p(""), None);
    assert_eq!(p("007"), Some(7));
    assert_eq!(p("18446744073709551616"), None);
    assert_eq!(p("1 "), None);
    assert_eq!(p("++1"), None);
}

#[test]
fn trimming_removes_unicode_whitespace() {
    let v = chars_of("\u{a0}\t a b \n\u{3000}");
    let t: String = trim_chars(&v).into_iter().collect();
    assert_eq!(t, "a b");
    let all_space = chars_of(" \n\t ");
    assert!(trim_chars(&all_space).is_empty());
}

#[test]
fn ascii_lowercasing() {
    assert_eq!(to_ascii_lowercase("HeLLo ÄÖ 123"), "hello ÄÖ 123");
    assert_eq!(to_ascii_lowercase(&to_ascii_lowercase("MiXeD")), to_ascii_lowercase("MiXeD"));
}

#[test]
fn replacing_all_occurrences() {
    assert_eq!(replace("$H$/a/$H$", "$H$", "/home"), "/home/a//home");
    assert_eq!(replace("aaa", "aa", "b"), "ba");
    assert_eq!(replace("none", "$H$", "x"), "none");
    for (s, p, r) in [("ab", "", "x"), ("", "", "x"), ("é", "", "-"), ("", "a", "x")] {
        assert_eq!(replace(s, p, r), s.replace(p, r), "{:?} {:?} {:?}", s, p, r);
    }
}

#[test]
fn trimming_twice_is_trimming_once() {
    let v = chars_of("\n\t x y \u{2003}");
    let once = trim_chars(&v);
    assert_eq!(trim_chars(&once), once);
    assert_eq!(once.iter().collect::<String>(), "x y");
}

#[test]
fn listing_lines_are_the_pieces_between_line_feeds() {
    // Every line between line feeds gives one tab; the name keeps all but
    // the separators that were cut.
    let r = parse("1,1,a\n2,2,b\n3,3,c", TabLauncher::Chrome).unwrap();
    let names: Vec<String> = r.into_iter().map(|t| t.3).collect();
    assert_eq!(names.join("\n"), "a\nb\nc");
}

#[test]
fn whitespace_is_what_std_says() {
    for u in 0u32..=0x10FFFF {
        if let Some(c) = char::from_u32(u) {
            assert_eq!(is_whitespace(c), c.is_whitespace(), "U+{:04X}", u);
        }
    }
}

#[test]
fn leading_space_makes_a_line_malformed() {
    assert_eq!(parse(" 1,4,x", TabLauncher::Chrome), Some(vec![("chrome", 1, 4, "x".to_string())]));
    assert_eq!(parse("0,0,a\n 1,4,x", TabLauncher::Chrome), None);
}

#[test]
fn appending_a_line_keeps_earlier_tabs() {
    let base = "1,1,Inbox\n1,2,News";
    let before = parse(base, TabLauncher::Chrome).unwrap();
    let with_new = parse(&format!("{}\n{},{},{}", base, 7, 8, "Docs"), TabLauncher::Chrome).unwrap();
    let mut expected = before.clone();
    expected.push(("chrome", 7, 8, "Docs".to_string()));
    assert_eq!(with_new, expected);
    let with_old = parse(&format!("{}\n{},{},{}", base, 7, 8, "News"), TabLauncher::Chrome).unwrap();
    assert_eq!(with_old, before);
}

#[test]
fn file_stems() {
    assert_eq!(file_stem_of("Safari.app"), "Safari");
    assert_eq!(file_stem_of("archive.tar.gz"), "archive.tar");
    assert_eq!(file_stem_of(".hidden"), ".hidden");
    assert_eq!(file_stem_of("noext"), "noext");
    assert_eq!(file_stem_of("a."), "a");
    assert_eq!(file_stem_of(".a.b"), ".a");
    for name in ["Safari.app", "archive.tar.gz", ".hidden", "noext", "a.", ".a.b", "x.y.z."] {
        let expected = std::path::Path::new(name).file_stem().unwrap().to_str().unwrap();
        assert_eq!(file_stem_of(name), expected, "{}", name);
    }
}

#[test]
fn path_joining() {
    for (base, rel) in [("/Users/me", "Applications"), ("/Users/me/", "Applications"), ("", "x"), ("/", "y")] {
        let mut s = base.to_string();
        push_path(&mut s, rel);
        let expected = std::path::Path::new(base).join(rel);
        assert_eq!(s, expected.to_str().unwrap());
    }
}

//! The `list-intellij` answer: the recent projects of IntelliJ IDEA, read
//! from the `entry key` lines of its `recentProjects.xml`.

use vstd::prelude::*;

use crate::alfred::{AlfredItem, AlfredItemType, AlfredItemView, AlfredItems, ItemIcon, ItemIconType, ItemIconView};
use crate::text::{
    chars_of, copy_range, find_first, last_index, last_index_of, lemma_find_from,
    lemma_last_index, lemma_last_index_append, replace, replace_all, split, split_from,
    string_from_utf8, string_of,
};

verus! {

// ---------------------------------------------------------------------------
// Trusted items over the regex crate
// ---------------------------------------------------------------------------

/// `regex::Regex`, a compiled regular expression, carried through opaquely.
#[verifier::external_type_specification]
#[verifier::external_body]
pub struct ExRegex(regex::Regex);

/// `regex::Error`, why a pattern was refused, carried through opaquely.
#[verifier::external_type_specification]
#[verifier::external_body]
pub struct ExRegexError(regex::Error);

/// Whether `regex::Regex::new` accepts the pattern.
pub uninterp spec fn regex_compiles(pattern: Seq<char>) -> bool;

/// The text of capture group `group` in the leftmost-first match of the
/// pattern in `text`: `None` when nothing matches or the group takes no part.
pub uninterp spec fn regex_capture(pattern: Seq<char>, text: Seq<char>, group: nat) -> Option<Seq<char>>;

/// A compiled regular expression together with the pattern it came from.
struct CompiledPattern {
    source: String,
    regex: regex::Regex,
}

impl View for CompiledPattern {
    type V = Seq<char>;

    closed spec fn view(&self) -> Seq<char> {
        self.source@
    }
}

/// `regex::Regex::new`: succeeds exactly when the pattern is accepted
/// (`regex_compiles`); the compiled expression is kept with its pattern.
#[verifier::external_body]
fn compile_pattern(pattern: &str) -> (r: Result<CompiledPattern, regex::Error>)
    ensures
        r is Ok <==> regex_compiles(pattern@),
        r matches Ok(p) ==> p@ == pattern@,
{
    match regex::Regex::new(pattern) {
        Ok(regex) => Ok(CompiledPattern { source: pattern.to_string(), regex }),
        Err(e) => Err(e),
    }
}

/// `regex::Regex::captures` then `Captures::get`: the text of a capture
/// group of the leftmost-first match, as the name `regex_capture` gives it
/// for the expression's pattern; what that text is the contract leaves to
/// the regex crate.
#[verifier::external_body]
fn capture_group(p: &CompiledPattern, text: &str, group: usize) -> (r: Option<String>)
    ensures
        match r {
            Some(s) => regex_capture(p@, text@, group as nat) == Some(s@),
            None => regex_capture(p@, text@, group as nat) is None,
        },
{
    match p.regex.captures(text) {
        Some(caps) => match caps.get(group) {
            Some(m) => Some(m.as_str().to_string()),
            None => None,
        },
        None => None,
    }
}

// ---------------------------------------------------------------------------
// Recent projects
// ---------------------------------------------------------------------------

/// The line of `recentProjects.xml` that names a project, its path in the
/// first group.
pub const PROJECT_ENTRY_PATTERN: &'static str = "^\\s*<entry key=\"([$a-zA-Z/.0-9_]+)\">\\s*$";

/// The placeholder that IntelliJ writes for the home directory.
pub const USER_HOME_PLACEHOLDER: &'static str = "$USER_HOME$";

/// Why the recent projects could not be listed.
#[derive(Clone, Copy, Debug, PartialEq, Eq, Structural)]
pub enum IntellijError {
    /// The project line pattern is not accepted by the regex crate.
    BadPattern,
}

/// The project path that a line names, with the home placeholder replaced.
pub open spec fn project_path(line: Seq<char>, home: Seq<char>) -> Option<Seq<char>> {
    match regex_capture(PROJECT_ENTRY_PATTERN@, line, 1) {
        Some(p) => Some(replace_all(p, USER_HOME_PLACEHOLDER@, home)),
        None => None,
    }
}

/// The last two components of a path (its parent's name and its own), or
/// the whole path when it has no '/'.
pub open spec fn path_tail(path: Seq<char>) -> (Seq<char>, Option<Seq<char>>) {
    match last_index(path, '/') {
        None => (path, None),
        Some(j) => {
            let before = path.take(j as int);
            let parent = match last_index(before, '/') {
                None => before,
                Some(k) => before.skip(k as int + 1),
            };
            (path.skip(j as int + 1), Some(parent))
        },
    }
}

/// The title of a project: "<parent> <name>", or the path itself when it
/// has no '/'.
pub open spec fn project_title(path: Seq<char>) -> Seq<char> {
    match path_tail(path) {
        (name, Some(parent)) => parent + " "@ + name,
        (name, None) => name,
    }
}

/// The completion of a project: its parent's name between spaces.
pub open spec fn project_autocomplete(path: Seq<char>) -> Seq<char> {
    match path_tail(path) {
        (_, Some(parent)) => " "@ + parent + " "@,
        (_, None) => "  "@,
    }
}

/// The Alfred item of a project.
pub open spec fn project_item(path: Seq<char>) -> AlfredItemView {
    AlfredItemView {
        uid: path,
        typ: AlfredItemType::Default,
        title: project_title(path),
        subtitle: "IntelliJ"@,
        arg: "open-intellij \""@ + path + "\""@,
        autocomplete: project_autocomplete(path),
        icon: ItemIconView {
            typ: ItemIconType::IconForFileAtPath,
            path: "/Applications/IntelliJ IDEA.app"@,
        },
    }
}

/// The items of the lines, in order: one per line that names a project.
pub open spec fn project_items(lines: Seq<Seq<char>>, home: Seq<char>) -> Seq<AlfredItemView>
    decreases lines.len(),
{
    if lines.len() == 0 {
        seq![]
    } else {
        let prev = project_items(lines.drop_last(), home);
        match project_path(lines.last(), home) {
            Some(p) => prev.push(project_item(p)),
            None => prev,
        }
    }
}

/// Whether every line of the file is UTF-8.
pub open spec fn lines_utf8(content: Seq<u8>) -> bool {
    forall|i: int|
        0 <= i < split(content, 10u8).len() ==> vstd::utf8::valid_utf8(
            #[trigger] split(content, 10u8)[i],
        )
}

/// What listing the recent projects gives, from the file's bytes and the
/// home directory.
pub open spec fn intellij_result(content: Seq<u8>, home: Seq<char>) -> Result<
    Seq<AlfredItemView>,
    IntellijError,
> {
    if !regex_compiles(PROJECT_ENTRY_PATTERN@) {
        Err(IntellijError::BadPattern)
    } else {
        Ok(
            project_items(
                split(content, 10u8).map_values(|l: Seq<u8>| vstd::utf8::decode_utf8(l)),
                home,
            ),
        )
    }
}

/// The view of an answer.
pub open spec fn intellij_result_view(r: Result<AlfredItems, IntellijError>) -> Result<
    Seq<AlfredItemView>,
    IntellijError,
> {
    match r {
        Ok(items) => Ok(items@),
        Err(e) => Err(e),
    }
}

/// The Alfred item of the project at `path`.
pub fn project_alfred_item(path: &str) -> (r: AlfredItem)
    ensures
        r@ == project_item(path@),
{
    let v = chars_of(path);
    let (title, autocomplete) = match last_index_of(&v, '/') {
        None => (string_of(&v, 0, v.len()), String::from_str("  ")),
        Some(j) => {
            proof {
                lemma_last_index(v@, '/');
                assert(v@.subrange(0, j as int) =~= v@.take(j as int));
            }
            let before = copy_range(&v, 0, j);
            let parent = match last_index_of(&before, '/') {
                None => string_of(&before, 0, before.len()),
                Some(k) => {
                    proof {
                        lemma_last_index(before@, '/');
                    }
                    string_of(&before, k + 1, before.len())
                },
            };
            let name = string_of(&v, j + 1, v.len());
            let mut title = parent.clone();
            title.append(" ");
            title.append(name.as_str());
            let mut auto = String::from_str(" ");
            auto.append(parent.as_str());
            auto.append(" ");
            (title, auto)
        },
    };
    proof {
        assert(v@.subrange(0, v@.len() as int) =~= v@);
        if let Some(j) = last_index(v@, '/') {
            lemma_last_index(v@, '/');
            assert(v@.skip(j as int + 1) =~= v@.subrange(j as int + 1, v@.len() as int));
            let before = v@.take(j as int);
            assert(before.subrange(0, before.len() as int) =~= before);
            if let Some(k) = last_index(before, '/') {
                lemma_last_index(before, '/');
                assert(before.skip(k as int + 1) =~= before.subrange(k as int + 1, before.len() as int));
            }
        }
    }
    let mut arg = String::from_str("open-intellij \"");
    arg.append(path);
    arg.append("\"");
    AlfredItem {
        uid: String::from_str(path),
        typ: AlfredItemType::Default,
        title,
        subtitle: String::from_str("IntelliJ"),
        arg,
        autocomplete,
        icon: ItemIcon {
            typ: ItemIconType::IconForFileAtPath,
            path: String::from_str("/Applications/IntelliJ IDEA.app"),
        },
    }
}

/// The project path that a line names, if it names one.
fn project_path_of(pattern: &CompiledPattern, line: &str, home: &str) -> (r: Option<String>)
    requires
        pattern@ == PROJECT_ENTRY_PATTERN@,
    ensures
        match r {
            Some(p) => project_path(line@, home@) == Some(p@),
            None => project_path(line@, home@) is None,
        },
{
    match capture_group(pattern, line, 1) {
        Some(p) => Some(replace(p.as_str(), USER_HOME_PLACEHOLDER, home)),
        None => None,
    }
}

/// Whether every line of the file is UTF-8.
pub fn lines_are_utf8(content: &Vec<u8>) -> (r: bool)
    ensures
        r == lines_utf8(content@),
{
    let ghost all = split(content@, 10u8);
    let ghost done = Seq::<Seq<u8>>::empty();
    let mut start: usize = 0;
    loop
        invariant
            start <= content.len(),
            all == split(content@, 10u8),
            all == done + split_from(content@, 10u8, start as nat),
            forall|i: int| 0 <= i < done.len() ==> vstd::utf8::valid_utf8(#[trigger] done[i]),
        decreases content.len() - start,
    {
        proof {
            lemma_find_from(content@, 10u8, start as nat);
        }
        let (end, next) = match find_first(content, 10u8, start) {
            Some(i) => (i, Some(i + 1)),
            None => (content.len(), None),
        };
        let bytes = copy_range(content, start, end);
        let ghost line_bytes = bytes@;
        assert(all[done.len() as int] == line_bytes);
        if string_from_utf8(bytes).is_none() {
            return false;
        }
        proof {
            done = done.push(line_bytes);
        }
        match next {
            Some(n) => {
                assert(all =~= done + split_from(content@, 10u8, n as nat));
                start = n;
            },
            None => {
                assert(all =~= done);
                return true;
            },
        }
    }
}

/// The recent projects listed in `recentProjects.xml`, with the home
/// placeholder replaced by `home`.
pub fn intellij_items(content: Vec<u8>, home: &str) -> (r: Result<AlfredItems, IntellijError>)
    requires
        lines_utf8(content@),
    ensures
        intellij_result_view(r) == intellij_result(content@, home@),
{
    let pattern = match compile_pattern(PROJECT_ENTRY_PATTERN) {
        Ok(p) => p,
        Err(_) => return Err(IntellijError::BadPattern),
    };
    let ghost all = split(content@, 10u8);
    let ghost done = Seq::<Seq<u8>>::empty();
    let mut items: Vec<AlfredItem> = Vec::new();
    let mut start: usize = 0;
    loop
        invariant
            start <= content.len(),
            pattern@ == PROJECT_ENTRY_PATTERN@,
            regex_compiles(PROJECT_ENTRY_PATTERN@),
            all == split(content@, 10u8),
            all == done + split_from(content@, 10u8, start as nat),
            lines_utf8(content@),
            items@.map_values(|i: AlfredItem| i@) == project_items(
                done.map_values(|l: Seq<u8>| vstd::utf8::decode_utf8(l)),
                home@,
            ),
        decreases content.len() - start,
    {
        proof {
            lemma_find_from(content@, 10u8, start as nat);
        }
        let (end, next) = match find_first(&content, 10u8, start) {
            Some(i) => (i, Some(i + 1)),
            None => (content.len(), None),
        };
        let bytes = copy_range(&content, start, end);
        let ghost line_bytes = bytes@;
        assert(all[done.len() as int] == line_bytes);
        let line = string_from_utf8(bytes).unwrap();
        let ghost prev_done = done;
        let ghost before = items@;
        proof {
            done = done.push(line_bytes);
            assert(done.map_values(|l: Seq<u8>| vstd::utf8::decode_utf8(l)).drop_last()
                =~= prev_done.map_values(|l: Seq<u8>| vstd::utf8::decode_utf8(l)));
        }
        match project_path_of(&pattern, line.as_str(), home) {
            Some(p) => {
                let item = project_alfred_item(p.as_str());
                items.push(item);
                assert(items@.map_values(|i: AlfredItem| i@) =~= before.map_values(
                    |i: AlfredItem| i@,
                ).push(item@));
            },
            None => {},
        }
        match next {
            Some(n) => {
                assert(all =~= done + split_from(content@, 10u8, n as nat));
                start = n;
            },
            None => {
                assert(all =~= done);
                return Ok(AlfredItems { items });
            },
        }
    }
}

/// A project's title and completion are cut from its last two
/// '/'-components: `<...>/<parent>/<name>` and `<parent>/<name>` give the
/// title "<parent> <name>" and the completion " <parent> "; a path without
/// '/' is its own title, with the completion of two spaces.
pub proof fn lemma_project_title(p: Seq<char>, parent: Seq<char>, name: Seq<char>)
    requires
        !parent.contains('/'),
        !name.contains('/'),
    ensures
        project_title(p + seq!['/'] + parent + seq!['/'] + name) == parent + " "@ + name,
        project_autocomplete(p + seq!['/'] + parent + seq!['/'] + name) == " "@ + parent + " "@,
        project_title(parent + seq!['/'] + name) == parent + " "@ + name,
        project_autocomplete(parent + seq!['/'] + name) == " "@ + parent + " "@,
        project_title(name) == name,
        project_autocomplete(name) == "  "@,
{
    let long = p + seq!['/'] + parent + seq!['/'] + name;
    let before = p + seq!['/'] + parent;
    lemma_last_index_append(before, '/', name);
    assert(long.take(before.len() as int) =~= before);
    assert(long.skip(before.len() as int + 1) =~= name);
    lemma_last_index_append(p, '/', parent);
    assert(before.skip(p.len() as int + 1) =~= parent);
    let short = parent + seq!['/'] + name;
    lemma_last_index_append(parent, '/', name);
    assert(short.take(parent.len() as int) =~= parent);
    assert(short.skip(parent.len() as int + 1) =~= name);
    lemma_last_index_append(Seq::<char>::empty(), '/', parent);
}

proof fn lemma_project_item_origin(lines: Seq<Seq<char>>, home: Seq<char>, i: int) -> (l: int)
    requires
        0 <= i < project_items(lines, home).len(),
    ensures
        0 <= l < lines.len(),
        project_path(lines[l], home) == Some(project_items(lines, home)[i].uid),
        project_items(lines, home)[i] == project_item(project_items(lines, home)[i].uid),
    decreases lines.len(),
{
    let init = lines.drop_last();
    let prev = project_items(init, home);
    if i < prev.len() {
        let l = lemma_project_item_origin(init, home, i);
        assert(lines[l] == init[l]);
        l
    } else {
        (lines.len() - 1) as int
    }
}

/// Every listed project comes from a line of the file that the pattern
/// matches: its id is the captured path with the home placeholder
/// replaced, it opens that same path, and its title and completion are cut
/// from that same path.
pub proof fn lemma_intellij_items_shape(content: Seq<u8>, home: Seq<char>)
    requires
        regex_compiles(PROJECT_ENTRY_PATTERN@),
    ensures
        intellij_result(content, home) is Ok,
        ({
            let lines = split(content, 10u8).map_values(|l: Seq<u8>| vstd::utf8::decode_utf8(l));
            let items = intellij_result(content, home)->Ok_0;
            forall|i: int|
                #![trigger items[i]]
                0 <= i < items.len() ==> {
                    &&& items[i].title == project_title(items[i].uid)
                    &&& items[i].autocomplete == project_autocomplete(items[i].uid)
                    &&& items[i].arg == "open-intellij \""@ + items[i].uid + "\""@
                    &&& items[i].subtitle == "IntelliJ"@
                    &&& items[i].typ == AlfredItemType::Default
                    &&& items[i].icon == ItemIconView {
                        typ: ItemIconType::IconForFileAtPath,
                        path: "/Applications/IntelliJ IDEA.app"@,
                    }
                    &&& exists|l: int|
                        0 <= l < lines.len() && regex_capture(PROJECT_ENTRY_PATTERN@, #[trigger] lines[l], 1)
                            is Some && items[i].uid == replace_all(
                            regex_capture(PROJECT_ENTRY_PATTERN@, lines[l], 1)->0,
                            USER_HOME_PLACEHOLDER@,
                            home,
                        )
                }
        }),
{
    let lines = split(content, 10u8).map_values(|l: Seq<u8>| vstd::utf8::decode_utf8(l));
    let items = project_items(lines, home);
    assert forall|i: int|
        #![trigger items[i]]
        0 <= i < items.len() implies {
        &&& items[i].title == project_title(items[i].uid)
        &&& items[i].autocomplete == project_autocomplete(items[i].uid)
        &&& items[i].arg == "open-intellij \""@ + items[i].uid + "\""@
        &&& items[i].subtitle == "IntelliJ"@
        &&& items[i].typ == AlfredItemType::Default
        &&& items[i].icon == ItemIconView {
            typ: ItemIconType::IconForFileAtPath,
            path: "/Applications/IntelliJ IDEA.app"@,
        }
        &&& exists|l: int|
            0 <= l < lines.len() && regex_capture(PROJECT_ENTRY_PATTERN@, #[trigger] lines[l], 1)
                is Some && items[i].uid == replace_all(
                regex_capture(PROJECT_ENTRY_PATTERN@, lines[l], 1)->0,
                USER_HOME_PLACEHOLDER@,
                home,
            )
    } by {
        let l = lemma_project_item_origin(lines, home, i);
        assert(regex_capture(PROJECT_ENTRY_PATTERN@, lines[l], 1) is Some);
    }
}

} // verus!

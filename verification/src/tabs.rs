//! Parsing of the tab listings that the Chrome and iTerm scripts print: one
//! line per tab, `window,tab,name`, of which only the first line of each
//! name is kept.

use vstd::prelude::*;

use crate::launch::{ActionView, LaunchAction, LaunchTab, TabLauncher, actions_view};
use crate::text::{
    chars_of, copy_range, decimal, find_char, is_digit, lemma_decimal_digits, lemma_find_from,
    lemma_find_from_at, lemma_parse_decimal, lemma_split_append, lemma_split_without_sep,
    lemma_trim_start_append, lemma_trim_unchanged, parse_usize, parse_usize_chars, split, split3,
    split_from, string_from_utf8, string_of, trim, trim_chars, trim_start, unicode_whitespace,
};

verus! {

/// The window, tab and name that one line gives, if it has that form.
pub open spec fn tab_line(line: Seq<char>) -> Option<(usize, usize, Seq<char>)> {
    let parts = split3(line, ',');
    if parts.len() == 3 && parse_usize(parts[0]) is Some && parse_usize(parts[1]) is Some {
        Some((parse_usize(parts[0])->0, parse_usize(parts[1])->0, parts[2]))
    } else {
        None
    }
}

/// The lines of a listing: the text without surrounding whitespace, cut at
/// every line feed.
pub open spec fn tab_lines(text: Seq<char>) -> Seq<Seq<char>> {
    split(trim(text), '\n')
}

/// Every non-empty line has the form `window,tab,name`.
pub open spec fn lines_ok(lines: Seq<Seq<char>>) -> bool {
    forall|i: int| 0 <= i < lines.len() && #[trigger] lines[i].len() > 0 ==> tab_line(lines[i]) is Some
}

/// A listing whose non-empty lines all have the form `window,tab,name`.
pub open spec fn tab_text_ok(text: Seq<char>) -> bool {
    lines_ok(tab_lines(text))
}

/// The action of a tab of the given application.
pub open spec fn tab_view(typ: TabLauncher, window: usize, tab: usize, name: Seq<char>) -> ActionView {
    match typ {
        TabLauncher::Chrome => ActionView::Chrome { name, window, tab },
        TabLauncher::iTerm => ActionView::iTerm { name, window, tab },
    }
}

/// The name by which actions are told apart: a tab's name, a window's process.
pub open spec fn key_of(a: ActionView) -> Seq<char> {
    match a {
        ActionView::Chrome { name, .. } => name,
        ActionView::iTerm { name, .. } => name,
        ActionView::Window { process, .. } => process,
    }
}

/// Whether an action in `v` has the name `name`.
pub open spec fn has_key(v: Seq<ActionView>, name: Seq<char>) -> bool {
    exists|k: int| 0 <= k < v.len() && #[trigger] key_of(v[k]) == name
}

/// The actions of a listing's lines, in order: a line that is not of the
/// form `window,tab,name` (an empty one) gives none, and neither does a line
/// whose name an earlier line already gave.
pub open spec fn tab_actions(lines: Seq<Seq<char>>, typ: TabLauncher) -> Seq<ActionView>
    decreases lines.len(),
{
    if lines.len() == 0 {
        seq![]
    } else {
        let prev = tab_actions(lines.drop_last(), typ);
        match tab_line(lines.last()) {
            Some((window, tab, name)) => if has_key(prev, name) {
                prev
            } else {
                prev.push(tab_view(typ, window, tab, name))
            },
            None => prev,
        }
    }
}

/// Parses one line of a listing.
fn parse_line(line: &Vec<char>) -> (r: Option<(usize, usize, String)>)
    ensures
        match r {
            Some((w, t, n)) => tab_line(line@) == Some((w, t, n@)),
            None => tab_line(line@) is None,
        },
{
    let i = match find_char(line, ',', 0) {
        Some(i) => i,
        None => return None,
    };
    proof {
        lemma_find_from(line@, ',', 0);
    }
    assert(i < line.len());
    let j = match find_char(line, ',', i + 1) {
        Some(j) => j,
        None => return None,
    };
    proof {
        lemma_find_from(line@, ',', (i + 1) as nat);
    }
    assert(j < line.len());
    let ghost parts = split3(line@, ',');
    assert(parts[0] =~= line@.subrange(0, i as int));
    let window = match parse_usize_chars(line, 0, i) {
        Some(w) => w,
        None => return None,
    };
    let tab = match parse_usize_chars(line, i + 1, j) {
        Some(t) => t,
        None => return None,
    };
    let name = string_of(line, j + 1, line.len());
    assert(parts[2] =~= line@.subrange(j + 1, line@.len() as int));
    Some((window, tab, name))
}

/// The next line of `t` from `start`, and where the one after it starts.
fn next_line(t: &Vec<char>, start: usize) -> (r: (Vec<char>, Option<usize>))
    requires
        start <= t.len(),
    ensures
        split_from(t@, '\n', start as nat) == seq![r.0@] + match r.1 {
            Some(next) => split_from(t@, '\n', next as nat),
            None => Seq::<Seq<char>>::empty(),
        },
        r.1 matches Some(next) ==> start < next <= t.len(),
{
    proof {
        lemma_find_from(t@, '\n', start as nat);
    }
    match find_char(t, '\n', start) {
        Some(i) => {
            let line = copy_range(t, start, i);
            (line, Some(i + 1))
        },
        None => {
            let line = copy_range(t, start, t.len());
            assert(seq![line@] + Seq::<Seq<char>>::empty() =~= seq![line@]);
            (line, None)
        },
    }
}

/// Whether every non-empty line of a listing has the form `window,tab,name`.
pub fn tab_text_is_ok(text: &str) -> (r: bool)
    ensures
        r == tab_text_ok(text@),
{
    let t = trim_chars(&chars_of(text));
    let ghost all = split(t@, '\n');
    let ghost done = Seq::<Seq<char>>::empty();
    let mut start: usize = 0;
    loop
        invariant
            start <= t.len(),
            all == split(t@, '\n'),
            all == tab_lines(text@),
            all == done + split_from(t@, '\n', start as nat),
            lines_ok(done),
        decreases t.len() - start,
    {
        let (line, next) = next_line(&t, start);
        if line.len() > 0 {
            if parse_line(&line).is_none() {
                assert(all[done.len() as int] == line@);
                return false;
            }
        }
        proof {
            done = done.push(line@);
        }
        match next {
            Some(n) => {
                assert(all =~= done + split_from(t@, '\n', n as nat));
                start = n;
            },
            None => {
                assert(all =~= done);
                return true;
            },
        }
    }
}

/// Whether one of `seen` equals `name`.
fn contains_string(seen: &Vec<String>, name: &String) -> (r: bool)
    ensures
        r == exists|k: int| 0 <= k < seen.len() && #[trigger] seen@[k]@ == name@,
{
    let mut k: usize = 0;
    while k < seen.len()
        invariant
            k <= seen.len(),
            forall|j: int| 0 <= j < k ==> seen@[j]@ != name@,
        decreases seen.len() - k,
    {
        if seen[k] == *name {
            return true;
        }
        k = k + 1;
    }
    false
}

/// The actions of a listing whose non-empty lines all have the form
/// `window,tab,name`, for the given application.
pub fn parse_tab_text(text: &str, typ: TabLauncher) -> (r: Vec<LaunchAction>)
    requires
        tab_text_ok(text@),
    ensures
        actions_view(r@) == tab_actions(tab_lines(text@), typ),
{
    let t = trim_chars(&chars_of(text));
    let ghost all = split(t@, '\n');
    let ghost done = Seq::<Seq<char>>::empty();
    let mut out: Vec<LaunchAction> = Vec::new();
    let mut seen: Vec<String> = Vec::new();
    let mut start: usize = 0;
    assert(actions_view(out@) =~= tab_actions(done, typ));
    loop
        invariant
            start <= t.len(),
            all == split(t@, '\n'),
            all == tab_lines(text@),
            lines_ok(all),
            all == done + split_from(t@, '\n', start as nat),
            actions_view(out@) == tab_actions(done, typ),
            seen.len() == out.len(),
            forall|k: int| 0 <= k < seen.len() ==> #[trigger] seen@[k]@ == key_of(
                actions_view(out@)[k],
            ),
        decreases t.len() - start,
    {
        let (line, next) = next_line(&t, start);
        let ghost prev_done = done;
        proof {
            done = done.push(line@);
            assert(all[prev_done.len() as int] == line@);
            assert(done.drop_last() =~= prev_done);
        }
        match parse_line(&line) {
            Some((window, tab, name)) => {
                if !contains_string(&seen, &name) {
                    proof {
                        assert(!has_key(actions_view(out@), name@)) by {
                            if has_key(actions_view(out@), name@) {
                                let k = choose|k: int|
                                    0 <= k < actions_view(out@).len() && #[trigger] key_of(
                                        actions_view(out@)[k],
                                    ) == name@;
                                assert(seen@[k]@ == name@);
                            }
                        }
                    }
                    let ghost before = out@;
                    let copy = name.clone();
                    let action = match typ {
                        TabLauncher::Chrome => LaunchAction::Chrome(LaunchTab { name, window, tab }),
                        TabLauncher::iTerm => LaunchAction::iTerm(LaunchTab { name, window, tab }),
                    };
                    out.push(action);
                    seen.push(copy);
                    assert(actions_view(out@) =~= actions_view(before).push(
                        tab_view(typ, window, tab, copy@),
                    ));
                } else {
                    proof {
                        let k = choose|k: int| 0 <= k < seen.len() && #[trigger] seen@[k]@ == name@;
                        assert(key_of(actions_view(out@)[k]) == name@);
                    }
                }
            },
            None => {},
        }
        match next {
            Some(n) => {
                assert(all =~= done + split_from(t@, '\n', n as nat));
                start = n;
            },
            None => {
                assert(all =~= done);
                return out;
            },
        }
    }
}

/// A script output that is UTF-8 and whose non-empty lines all have the
/// form `window,tab,name`.
pub open spec fn tab_output_ok(stdout: Seq<u8>) -> bool {
    vstd::utf8::valid_utf8(stdout) && tab_text_ok(vstd::utf8::decode_utf8(stdout))
}

/// Whether a script output is UTF-8 with all non-empty lines of the form
/// `window,tab,name`.
pub fn tab_output_is_ok(stdout: &Vec<u8>) -> (r: bool)
    ensures
        r == tab_output_ok(stdout@),
{
    let bytes = copy_range(stdout, 0, stdout.len());
    assert(bytes@ =~= stdout@);
    match string_from_utf8(bytes) {
        Some(text) => tab_text_is_ok(text.as_str()),
        None => false,
    }
}

/// The actions listed in a script's output, for the given application:
/// `None` when the output is not UTF-8.
pub fn parse_tabs(stdout: Vec<u8>, typ: TabLauncher) -> (r: Option<Vec<LaunchAction>>)
    requires
        vstd::utf8::valid_utf8(stdout@) ==> tab_text_ok(vstd::utf8::decode_utf8(stdout@)),
    ensures
        r is None <==> !vstd::utf8::valid_utf8(stdout@),
        r matches Some(v) ==> actions_view(v@) == tab_actions(
            tab_lines(vstd::utf8::decode_utf8(stdout@)),
            typ,
        ),
{
    match string_from_utf8(stdout) {
        Some(text) => Some(parse_tab_text(text.as_str(), typ)),
        None => None,
    }
}

/// Every name comes out at most once.
pub proof fn lemma_tab_names_distinct(lines: Seq<Seq<char>>, typ: TabLauncher)
    ensures
        forall|i: int, j: int|
            0 <= i < j < tab_actions(lines, typ).len() ==> key_of(tab_actions(lines, typ)[i])
                != key_of(tab_actions(lines, typ)[j]),
    decreases lines.len(),
{
    if lines.len() > 0 {
        lemma_tab_names_distinct(lines.drop_last(), typ);
        let prev = tab_actions(lines.drop_last(), typ);
        match tab_line(lines.last()) {
            Some((window, tab, name)) => {
                if !has_key(prev, name) {
                    assert forall|i: int, j: int|
                        0 <= i < j < tab_actions(lines, typ).len() implies key_of(
                        tab_actions(lines, typ)[i],
                    ) != key_of(tab_actions(lines, typ)[j]) by {
                        if j == prev.len() {
                            assert(key_of(prev[i]) != name);
                        }
                    }
                }
            },
            None => {},
        }
    }
}

/// Whether `line` has the form `window,tab,name` and `a` is that tab.
pub open spec fn line_gives(line: Seq<char>, a: ActionView, typ: TabLauncher) -> bool {
    match tab_line(line) {
        Some((w, t, n)) => a == tab_view(typ, w, t, n),
        None => false,
    }
}

/// The line that the `i`-th action of a listing comes from.
pub proof fn lemma_tab_action_origin(lines: Seq<Seq<char>>, typ: TabLauncher, i: int) -> (l: int)
    requires
        0 <= i < tab_actions(lines, typ).len(),
    ensures
        0 <= l < lines.len(),
        line_gives(lines[l], tab_actions(lines, typ)[i], typ),
    decreases lines.len(),
{
    let init = lines.drop_last();
    let prev = tab_actions(init, typ);
    if i < prev.len() {
        let l = lemma_tab_action_origin(init, typ, i);
        assert(lines[l] == init[l]);
        l
    } else {
        (lines.len() - 1) as int
    }
}

/// Every action is a tab of the application whose listing was read, with
/// the window, tab and name of one of the lines.
pub proof fn lemma_tab_actions_from_lines(lines: Seq<Seq<char>>, typ: TabLauncher)
    ensures
        forall|i: int|
            0 <= i < tab_actions(lines, typ).len() ==> exists|l: int|
                0 <= l < lines.len() && line_gives(
                    #[trigger] lines[l],
                    #[trigger] tab_actions(lines, typ)[i],
                    typ,
                ),
{
    assert forall|i: int|
        0 <= i < tab_actions(lines, typ).len() implies exists|l: int|
            0 <= l < lines.len() && line_gives(
                #[trigger] lines[l],
                #[trigger] tab_actions(lines, typ)[i],
                typ,
            ) by {
        let l = lemma_tab_action_origin(lines, typ, i);
        assert(line_gives(lines[l], tab_actions(lines, typ)[i], typ));
    }
}

/// A listing gives at most one action per line.
pub proof fn lemma_tab_actions_len(lines: Seq<Seq<char>>, typ: TabLauncher)
    ensures
        tab_actions(lines, typ).len() <= lines.len(),
    decreases lines.len(),
{
    if lines.len() > 0 {
        lemma_tab_actions_len(lines.drop_last(), typ);
    }
}

/// The line `window,tab,name`.
pub open spec fn tab_line_text(window: usize, tab: usize, name: Seq<char>) -> Seq<char> {
    decimal(window as nat) + seq![','] + decimal(tab as nat) + seq![','] + name
}

/// The line `window,tab,name` reads back as that window, tab and name.
pub proof fn lemma_tab_line_text(window: usize, tab: usize, name: Seq<char>)
    ensures
        tab_line(tab_line_text(window, tab, name)) == Some((window, tab, name)),
{
    let dw = decimal(window as nat);
    let dt = decimal(tab as nat);
    lemma_decimal_digits(window as nat);
    lemma_decimal_digits(tab as nat);
    lemma_parse_decimal(window);
    lemma_parse_decimal(tab);
    let line = tab_line_text(window, tab, name);
    let i = dw.len() as int;
    let j = i + 1 + dt.len();
    assert(line[i] == ',');
    assert forall|k: int| 0 <= k < i implies line[k] != ',' by {
        assert(line[k] == dw[k]);
        assert(is_digit(dw[k]));
    }
    lemma_find_from_at(line, ',', 0, i);
    assert(line[j] == ',');
    assert forall|k: int| i + 1 <= k < j implies line[k] != ',' by {
        assert(line[k] == dt[k - i - 1]);
        assert(is_digit(dt[k - i - 1]));
    }
    lemma_find_from_at(line, ',', (i + 1) as nat, j);
    assert(line.take(i) =~= dw);
    assert(line.subrange(i + 1, j) =~= dt);
    assert(line.skip(j + 1) =~= name);
}

/// Appending the line `window,tab,name` to a listing that does not end in
/// whitespace keeps every action the listing gave and adds that tab after
/// them, unless a tab of that name was already given; a readable listing
/// stays readable.
pub proof fn lemma_append_line(
    text: Seq<char>,
    window: usize,
    tab: usize,
    name: Seq<char>,
    typ: TabLauncher,
)
    requires
        text.len() == 0 || !unicode_whitespace(text.last()),
        !name.contains('\n'),
        name.len() == 0 || !unicode_whitespace(name.last()),
    ensures
        ({
            let text2 = text + seq!['\n'] + tab_line_text(window, tab, name);
            let before = tab_actions(tab_lines(text), typ);
            &&& tab_text_ok(text) ==> tab_text_ok(text2)
            &&& tab_actions(tab_lines(text2), typ) == if has_key(before, name) {
                before
            } else {
                before.push(tab_view(typ, window, tab, name))
            }
        }),
{
    let line = tab_line_text(window, tab, name);
    let dw = decimal(window as nat);
    let dt = decimal(tab as nat);
    lemma_decimal_digits(window as nat);
    lemma_decimal_digits(tab as nat);
    lemma_tab_line_text(window, tab, name);
    let text2 = text + seq!['\n'] + line;
    // The line holds no line feed, starts with a digit and ends with a
    // character other than whitespace.
    assert(!line.contains('\n')) by {
        if line.contains('\n') {
            let k = choose|k: int| 0 <= k < line.len() && line[k] == '\n';
            if k < dw.len() {
                assert(line[k] == dw[k]);
                assert(is_digit(dw[k]));
            } else if k == dw.len() {
            } else if k < dw.len() + 1 + dt.len() {
                assert(line[k] == dt[k - dw.len() - 1]);
                assert(is_digit(dt[k - dw.len() - 1]));
            } else if k == dw.len() + 1 + dt.len() {
            } else {
                assert(line[k] == name[k - dw.len() - 2 - dt.len()]);
            }
        }
    }
    assert(line[0] == dw[0]);
    assert(is_digit(dw[0]));
    assert(!unicode_whitespace(line[0]));
    if name.len() > 0 {
        assert(line.last() == name.last());
    } else {
        assert(line.last() == ',');
    }
    assert(!unicode_whitespace(line.last()));
    lemma_trim_unchanged(line);
    lemma_split_without_sep(line, '\n');
    let lines = tab_lines(text);
    let lines2 = tab_lines(text2);
    if text.len() == 0 {
        assert(text2 =~= seq!['\n'] + line);
        assert((seq!['\n'] + line).drop_first() =~= line);
        assert(trim_start(text2) == trim_start(line));
        assert(trim(text2) == line);
        assert(lines2 == seq![line]);
        assert(trim(text) =~= Seq::<char>::empty());
        lemma_split_without_sep(Seq::<char>::empty(), '\n');
        assert(lines == seq![Seq::<char>::empty()]);
        assert(tab_line(Seq::<char>::empty()) is None) by {
            lemma_find_from(Seq::<char>::empty(), ',', 0);
        }
        let none = Seq::<Seq<char>>::empty();
        assert(tab_actions(none, typ) =~= Seq::<ActionView>::empty());
        assert(lines.drop_last() =~= none);
        assert(lines.last() =~= Seq::<char>::empty());
        assert(tab_actions(lines, typ) =~= Seq::<ActionView>::empty());
        assert(lines2.drop_last() =~= none);
        assert(lines2.last() == line);
        assert(!has_key(Seq::<ActionView>::empty(), name));
        assert(tab_actions(lines2, typ) =~= seq![tab_view(typ, window, tab, name)]);
        assert(lines_ok(lines2));
    } else {
        lemma_trim_start_append(text, seq!['\n'] + line);
        let ts = trim_start(text);
        assert(text2 =~= text + (seq!['\n'] + line));
        assert(trim_start(text2) == ts + (seq!['\n'] + line));
        assert(ts + (seq!['\n'] + line) =~= ts + seq!['\n'] + line);
        assert((ts + seq!['\n'] + line).last() == line.last());
        lemma_trim_unchanged(ts + seq!['\n'] + line);
        assert(trim(text2) == ts + seq!['\n'] + line);
        lemma_trim_unchanged(ts);
        assert(trim(text) == ts);
        lemma_split_append(ts, '\n', line);
        assert(lines2 == lines.push(line));
        assert(lines2.drop_last() =~= lines);
        assert(lines2.last() == line);
        if lines_ok(lines) {
            assert forall|i: int| 0 <= i < lines2.len() && #[trigger] lines2[i].len() > 0 implies tab_line(
                lines2[i],
            ) is Some by {
                if i < lines.len() {
                    assert(lines2[i] == lines[i]);
                }
            }
        }
    }
}

proof fn lemma_encode_utf8_append(a: Seq<char>, b: Seq<char>)
    ensures
        vstd::utf8::encode_utf8(a + b) == vstd::utf8::encode_utf8(a) + vstd::utf8::encode_utf8(b),
    decreases a.len(),
{
    if a.len() > 0 {
        assert((a + b).drop_first() =~= a.drop_first() + b);
        assert((a + b)[0] == a[0]);
        lemma_encode_utf8_append(a.drop_first(), b);
        assert(vstd::utf8::encode_utf8(a + b) =~= vstd::utf8::encode_utf8(a)
            + vstd::utf8::encode_utf8(b));
    } else {
        assert(a + b =~= b);
        assert(vstd::utf8::encode_utf8(a) + vstd::utf8::encode_utf8(b) =~= vstd::utf8::encode_utf8(b));
    }
}

/// The same law for the script's output bytes: appending the UTF-8 of a
/// line feed and the line `window,tab,name` to an output that decodes to a
/// text not ending in whitespace keeps every action it gave and adds that
/// tab, unless a tab of that name was already given; a readable output
/// stays readable.
pub proof fn lemma_append_line_bytes(
    stdout: Seq<u8>,
    window: usize,
    tab: usize,
    name: Seq<char>,
    typ: TabLauncher,
)
    requires
        vstd::utf8::valid_utf8(stdout),
        vstd::utf8::decode_utf8(stdout).len() == 0 || !unicode_whitespace(
            vstd::utf8::decode_utf8(stdout).last(),
        ),
        !name.contains('\n'),
        name.len() == 0 || !unicode_whitespace(name.last()),
    ensures
        ({
            let stdout2 = stdout + vstd::utf8::encode_utf8(
                seq!['\n'] + tab_line_text(window, tab, name),
            );
            let before = tab_actions(tab_lines(vstd::utf8::decode_utf8(stdout)), typ);
            &&& vstd::utf8::valid_utf8(stdout2)
            &&& tab_output_ok(stdout) ==> tab_output_ok(stdout2)
            &&& tab_actions(tab_lines(vstd::utf8::decode_utf8(stdout2)), typ) == if has_key(
                before,
                name,
            ) {
                before
            } else {
                before.push(tab_view(typ, window, tab, name))
            }
        }),
{
    let text = vstd::utf8::decode_utf8(stdout);
    let tail = seq!['\n'] + tab_line_text(window, tab, name);
    vstd::utf8::decode_utf8_encode_utf8(stdout);
    lemma_encode_utf8_append(text, tail);
    let stdout2 = stdout + vstd::utf8::encode_utf8(tail);
    assert(stdout2 == vstd::utf8::encode_utf8(text + tail));
    vstd::utf8::encode_utf8_valid_utf8(text + tail);
    vstd::utf8::encode_utf8_decode_utf8(text + tail);
    assert(text + tail =~= text + seq!['\n'] + tab_line_text(window, tab, name));
    lemma_append_line(text, window, tab, name, typ);
}

} // verus!

//! What can be switched to from Alfred (a Chrome tab, an iTerm session or a
//! window of some application), and the texts and icon of its Alfred item.

use vstd::prelude::*;

use crate::alfred::{AlfredItem, AlfredItemType, AlfredItemView, ItemIcon, ItemIconType, ItemIconView};
use crate::text::{
    ascii_lower, chars_of, decimal, last_index, last_index_of, lemma_last_index,
    lemma_last_index_append, push_char, push_decimal, push_lowercase, string_of,
};

verus! {

/// The application whose tab listing is parsed.
#[allow(non_camel_case_types)]
#[derive(Clone, Copy, Debug, PartialEq, Eq, Structural)]
pub enum TabLauncher {
    Chrome,
    iTerm,
}

/// A tab (or session) of a tabbed application.
pub struct LaunchTab {
    pub name: String,
    pub window: usize,
    pub tab: usize,
}

/// A window of some application.
pub struct LaunchWindow {
    pub process: String,
    pub window_name: String,
}

/// Something that an Alfred item switches to.
#[allow(non_camel_case_types)]
pub enum LaunchAction {
    Chrome(LaunchTab),
    iTerm(LaunchTab),
    Window(LaunchWindow),
}

/// A launch action with its texts as characters.
#[allow(non_camel_case_types)]
pub enum ActionView {
    Chrome { name: Seq<char>, window: usize, tab: usize },
    iTerm { name: Seq<char>, window: usize, tab: usize },
    Window { process: Seq<char>, window_name: Seq<char> },
}

impl View for LaunchAction {
    type V = ActionView;

    open spec fn view(&self) -> ActionView {
        match self {
            LaunchAction::Chrome(t) => ActionView::Chrome { name: t.name@, window: t.window, tab: t.tab },
            LaunchAction::iTerm(t) => ActionView::iTerm { name: t.name@, window: t.window, tab: t.tab },
            LaunchAction::Window(w) => ActionView::Window {
                process: w.process@,
                window_name: w.window_name@,
            },
        }
    }
}

/// The views of a sequence of actions.
pub open spec fn actions_view(v: Seq<LaunchAction>) -> Seq<ActionView> {
    v.map_values(|a: LaunchAction| a@)
}

/// `"<window>-<tab>-<name>"`, the name lower-cased.
pub open spec fn tab_uid(window: usize, tab: usize, name: Seq<char>) -> Seq<char> {
    decimal(window as nat) + "-"@ + decimal(tab as nat) + "-"@ + ascii_lower(name)
}

/// The unique id of the item of an action.
pub open spec fn uid_of(a: ActionView) -> Seq<char> {
    match a {
        ActionView::Chrome { name, window, tab } => tab_uid(window, tab, name),
        ActionView::iTerm { name, window, tab } => tab_uid(window, tab, name),
        ActionView::Window { process, window_name } => ascii_lower(process) + "-"@ + ascii_lower(
            window_name,
        ),
    }
}

/// The title of the item of an action.
pub open spec fn name_of(a: ActionView) -> Seq<char> {
    match a {
        ActionView::Chrome { name, .. } => name + " - Chrome Tab"@,
        ActionView::iTerm { name, .. } => name + " - iTerm Session"@,
        ActionView::Window { process, window_name } => window_name + " - "@ + process,
    }
}

/// The application that an action brings forward.
pub open spec fn process_name_of(a: ActionView) -> Seq<char> {
    match a {
        ActionView::Chrome { .. } => "Google Chrome"@,
        ActionView::iTerm { .. } => "iTerm"@,
        ActionView::Window { process, .. } => process,
    }
}

/// The arguments with which the program is run again when the item is chosen.
pub open spec fn args_of(a: ActionView) -> Seq<char> {
    match a {
        ActionView::Chrome { window, tab, .. } => "open-chrome "@ + decimal(window as nat) + " "@
            + decimal(tab as nat),
        ActionView::iTerm { window, tab, .. } => "open-iterm "@ + decimal(window as nat) + " "@
            + decimal(tab as nat),
        ActionView::Window { process, window_name } => "open \""@ + process + "\" \""@
            + window_name + "\""@,
    }
}

/// The icon of the item of an action: the application bundle, looked up by
/// process name for a window (empty when the process is unknown).
pub open spec fn icon_of(a: ActionView, icons: Map<Seq<char>, Seq<char>>) -> ItemIconView {
    match a {
        ActionView::Chrome { .. } => ItemIconView {
            typ: ItemIconType::IconForFileAtPath,
            path: "/Applications/Google Chrome.app"@,
        },
        ActionView::iTerm { .. } => ItemIconView {
            typ: ItemIconType::IconForFileAtPath,
            path: "/Applications/iTerm.app"@,
        },
        ActionView::Window { process, .. } => ItemIconView {
            typ: ItemIconType::IconForFileAtPath,
            path: if icons.dom().contains(process) {
                icons[process]
            } else {
                Seq::empty()
            },
        },
    }
}

/// The Alfred item of an action.
pub open spec fn item_of(a: ActionView, icons: Map<Seq<char>, Seq<char>>) -> AlfredItemView {
    AlfredItemView {
        uid: uid_of(a),
        typ: AlfredItemType::Default,
        title: name_of(a),
        subtitle: process_name_of(a),
        arg: args_of(a),
        autocomplete: name_of(a),
        icon: icon_of(a, icons),
    }
}

// ---------------------------------------------------------------------------
// Icon lookup
// ---------------------------------------------------------------------------

/// The map that a list of (key, value) pairs builds when inserted in order:
/// a later pair replaces an earlier one with the same key.
pub open spec fn entries_map(s: Seq<(Seq<char>, Seq<char>)>) -> Map<Seq<char>, Seq<char>>
    decreases s.len(),
{
    if s.len() == 0 {
        Map::empty()
    } else {
        entries_map(s.drop_last()).insert(s.last().0, s.last().1)
    }
}

/// The views of a list of string pairs.
pub open spec fn pair_views(s: Seq<(String, String)>) -> Seq<(Seq<char>, Seq<char>)> {
    s.map_values(|p: (String, String)| (p.0@, p.1@))
}

/// Application name to the path of its bundle.
pub struct IconLookup {
    entries: Vec<(String, String)>,
}

impl View for IconLookup {
    type V = Map<Seq<char>, Seq<char>>;

    closed spec fn view(&self) -> Map<Seq<char>, Seq<char>> {
        entries_map(pair_views(self.entries@))
    }
}

proof fn lemma_entries_map_tail(s: Seq<(Seq<char>, Seq<char>)>, i: int, key: Seq<char>)
    requires
        0 <= i <= s.len(),
        forall|j: int| i <= j < s.len() ==> s[j].0 != key,
    ensures
        entries_map(s).dom().contains(key) == entries_map(s.take(i)).dom().contains(key),
        entries_map(s)[key] == entries_map(s.take(i))[key],
    decreases s.len() - i,
{
    if i < s.len() {
        assert(s.drop_last().take(i) =~= s.take(i));
        lemma_entries_map_tail(s.drop_last(), i, key);
    } else {
        assert(s.take(i) =~= s);
    }
}

impl IconLookup {
    /// An empty lookup.
    pub fn new() -> (r: IconLookup)
        ensures
            r@ == Map::<Seq<char>, Seq<char>>::empty(),
    {
        IconLookup { entries: Vec::new() }
    }

    /// Sets the path of `key`, replacing an earlier one.
    pub fn insert(&mut self, key: String, value: String)
        ensures
            final(self)@ == old(self)@.insert(key@, value@),
    {
        let ghost before = pair_views(self.entries@);
        self.entries.push((key, value));
        assert(pair_views(self.entries@).drop_last() =~= before);
    }

    /// The path of `key`, if any.
    pub fn get(&self, key: &String) -> (r: Option<String>)
        ensures
            r is Some <==> self@.dom().contains(key@),
            r matches Some(v) ==> v@ == self@[key@],
    {
        let ghost s = pair_views(self.entries@);
        let mut i = self.entries.len();
        assert(s.take(i as int) =~= s);
        while i > 0
            invariant
                i <= self.entries.len(),
                s == pair_views(self.entries@),
                forall|j: int| i <= j < s.len() ==> s[j].0 != key@,
            decreases i,
        {
            if self.entries[i - 1].0 == *key {
                proof {
                    lemma_entries_map_tail(s, i as int, key@);
                    assert(s.take(i as int).drop_last() =~= s.take(i - 1));
                }
                return Some(self.entries[i - 1].1.clone());
            }
            i = i - 1;
        }
        proof {
            lemma_entries_map_tail(s, 0, key@);
        }
        None
    }
}

/// What a lookup gives back after a write: the value written for that key,
/// and for any other key what it gave before.
pub proof fn lemma_lookup_after_insert(
    m: Map<Seq<char>, Seq<char>>,
    key: Seq<char>,
    value: Seq<char>,
    other: Seq<char>,
)
    ensures
        m.insert(key, value).dom().contains(key),
        m.insert(key, value)[key] == value,
        other != key ==> (m.insert(key, value).dom().contains(other) == m.dom().contains(other)),
        other != key ==> m.insert(key, value)[other] == m[other],
{
}

/// The stem of the name of a directory entry (what `Path::file_stem` gives
/// for the entry's path): the name before its last '.', or the whole name
/// when it has no '.' or its only '.' is the first character.
pub open spec fn file_stem(name: Seq<char>) -> Seq<char> {
    match last_index(name, '.') {
        None => name,
        Some(i) => if i == 0 {
            name
        } else {
            name.take(i as int)
        },
    }
}

/// The stem of a file name.
pub fn file_stem_of(name: &str) -> (r: String)
    ensures
        r@ == file_stem(name@),
{
    let v = chars_of(name);
    match last_index_of(&v, '.') {
        None => String::from_str(name),
        Some(i) => if i == 0 {
            String::from_str(name)
        } else {
            proof {
                lemma_last_index(v@, '.');
            }
            let r = string_of(&v, 0, i);
            assert(v@.subrange(0, i as int) =~= v@.take(i as int));
            r
        },
    }
}

/// `base` joined with the relative path `rel` (what `Path::join` gives for a
/// relative `rel`): a '/' goes between them unless `base` is empty or
/// already ends with one.
pub open spec fn join_path(base: Seq<char>, rel: Seq<char>) -> Seq<char> {
    if base.len() > 0 && base.last() != '/' {
        base + seq!['/'] + rel
    } else {
        base + rel
    }
}

/// Appends the relative path `rel` to `base`.
pub fn push_path(base: &mut String, rel: &str)
    ensures
        final(base)@ == join_path(old(base)@, rel@),
{
    let v = chars_of(base.as_str());
    if v.len() > 0 && v[v.len() - 1] != '/' {
        push_char(base, '/');
    }
    base.append(rel);
}

/// Where the JetBrains Toolbox installs IntelliJ IDEA Ultimate.
pub open spec fn idea_path(home: Seq<char>) -> Seq<char> {
    join_path(
        join_path(join_path(home, "Applications"@), "JetBrains Toolbox"@),
        "IntelliJ IDEA Ultimate.app"@,
    )
}

/// The (stem, path) entries of the applications found on disk, given as
/// (file name, path) pairs.
pub open spec fn app_entries(apps: Seq<(String, String)>) -> Seq<(Seq<char>, Seq<char>)> {
    apps.map_values(|p: (String, String)| (file_stem(p.0@), p.1@))
}

/// The icon lookup: IntelliJ IDEA (in the JetBrains Toolbox under `home`)
/// and Alfred's preferences first, then the applications found on disk,
/// given as (file name, bundle path) and keyed by the file name's stem, a
/// later one replacing an earlier one of the same stem.
pub fn icon_lookup(home: &str, apps: Vec<(String, String)>) -> (r: IconLookup)
    ensures
        r@ == icon_lookup_view(home@, apps@),
{
    let mut idea = String::from_str(home);
    push_path(&mut idea, "Applications");
    push_path(&mut idea, "JetBrains Toolbox");
    push_path(&mut idea, "IntelliJ IDEA Ultimate.app");
    let ghost first = seq![("IntelliJ IDEA"@, idea@), ("Alfred Preferences"@, "/Applications/Alfred 4.app"@)];
    let mut r = IconLookup::new();
    r.insert(String::from_str("IntelliJ IDEA"), idea);
    r.insert(String::from_str("Alfred Preferences"), String::from_str("/Applications/Alfred 4.app"));
    assert(first.drop_last().drop_last() =~= Seq::<(Seq<char>, Seq<char>)>::empty());
    assert(first.drop_last() =~= seq![("IntelliJ IDEA"@, first[0].1)]);
    assert(entries_map(first.drop_last().drop_last()) == Map::<Seq<char>, Seq<char>>::empty());
    assert(entries_map(first.drop_last()) == Map::<Seq<char>, Seq<char>>::empty().insert(
        "IntelliJ IDEA"@,
        first[0].1,
    ));
    assert(r@ == entries_map(first));
    let ghost pv = app_entries(apps@);
    let mut i: usize = 0;
    while i < apps.len()
        invariant
            i <= apps.len(),
            pv == app_entries(apps@),
            r@ == entries_map(first + pv.take(i as int)),
        decreases apps.len() - i,
    {
        let k = file_stem_of(apps[i].0.as_str());
        let v = apps[i].1.clone();
        r.insert(k, v);
        proof {
            assert((first + pv.take(i + 1)).drop_last() =~= first + pv.take(i as int));
            assert((first + pv.take(i + 1)).last() == (k@, v@));
        }
        i = i + 1;
    }
    assert(pv.take(i as int) =~= pv);
    r
}

/// A pair that no later pair overrides gives the map its value.
pub proof fn lemma_entries_map_last(s: Seq<(Seq<char>, Seq<char>)>, k: int)
    requires
        0 <= k < s.len(),
        forall|j: int| k < j < s.len() ==> #[trigger] s[j].0 != s[k].0,
    ensures
        entries_map(s).dom().contains(s[k].0),
        entries_map(s)[s[k].0] == s[k].1,
{
    lemma_entries_map_tail(s, k + 1, s[k].0);
    assert(s.take(k + 1).drop_last() =~= s.take(k));
    assert(s.take(k + 1).last() == s[k]);
}

/// The stem of a file name is the part before its last '.': the name of a
/// bundle `<base>.<ext>` is keyed by `<base>`, whatever dots `<base>`
/// holds; a name without '.', or whose only '.' comes first, is its own
/// stem.
pub proof fn lemma_file_stem(base: Seq<char>, ext: Seq<char>)
    requires
        !ext.contains('.'),
    ensures
        base.len() > 0 ==> file_stem(base + seq!['.'] + ext) == base,
        file_stem(ext) == ext,
        file_stem(seq!['.'] + ext) == seq!['.'] + ext,
{
    lemma_last_index_append(base, '.', ext);
    lemma_last_index_append(Seq::<char>::empty(), '.', ext);
    assert(Seq::<char>::empty() + seq!['.'] + ext =~= seq!['.'] + ext);
    assert((base + seq!['.'] + ext).take(base.len() as int) =~= base);
}

/// The lookup that `icon_lookup` builds from the home directory and the
/// applications found on disk.
pub open spec fn icon_lookup_view(home: Seq<char>, apps: Seq<(String, String)>) -> Map<
    Seq<char>,
    Seq<char>,
> {
    entries_map(
        seq![("IntelliJ IDEA"@, idea_path(home)), ("Alfred Preferences"@, "/Applications/Alfred 4.app"@)]
            + app_entries(apps),
    )
}

/// Every application found on disk is found under its file name's stem,
/// with its own path, unless a later application has the same stem.
pub proof fn lemma_icon_lookup_app(home: Seq<char>, apps: Seq<(String, String)>, k: int)
    requires
        0 <= k < apps.len(),
        forall|j: int| k < j < apps.len() ==> file_stem(#[trigger] apps[j].0@) != file_stem(apps[k].0@),
    ensures
        icon_lookup_view(home, apps).dom().contains(file_stem(apps[k].0@)),
        icon_lookup_view(home, apps)[file_stem(apps[k].0@)] == apps[k].1@,
{
    let first = seq![("IntelliJ IDEA"@, idea_path(home)), ("Alfred Preferences"@, "/Applications/Alfred 4.app"@)];
    let s = first + app_entries(apps);
    assert(s[k + 2] == (file_stem(apps[k].0@), apps[k].1@));
    assert forall|j: int| k + 2 < j < s.len() implies #[trigger] s[j].0 != s[k + 2].0 by {
        assert(s[j] == (file_stem(apps[j - 2].0@), apps[j - 2].1@));
    }
    lemma_entries_map_last(s, k + 2);
}

/// IntelliJ IDEA and Alfred's preferences are found at their fixed places
/// unless an application on disk has the same stem.
pub proof fn lemma_icon_lookup_fixed(home: Seq<char>, apps: Seq<(String, String)>)
    ensures
        (forall|j: int| 0 <= j < apps.len() ==> file_stem(#[trigger] apps[j].0@) != "IntelliJ IDEA"@)
            ==> icon_lookup_view(home, apps).dom().contains("IntelliJ IDEA"@) && icon_lookup_view(
            home,
            apps,
        )["IntelliJ IDEA"@] == idea_path(home),
        (forall|j: int| 0 <= j < apps.len() ==> file_stem(#[trigger] apps[j].0@) != "Alfred Preferences"@)
            ==> icon_lookup_view(home, apps).dom().contains("Alfred Preferences"@) && icon_lookup_view(
            home,
            apps,
        )["Alfred Preferences"@] == "/Applications/Alfred 4.app"@,
{
    let first = seq![("IntelliJ IDEA"@, idea_path(home)), ("Alfred Preferences"@, "/Applications/Alfred 4.app"@)];
    let s = first + app_entries(apps);
    reveal_strlit("IntelliJ IDEA");
    reveal_strlit("Alfred Preferences");
    if forall|j: int| 0 <= j < apps.len() ==> file_stem(#[trigger] apps[j].0@) != "IntelliJ IDEA"@ {
        assert forall|j: int| 0 < j < s.len() implies #[trigger] s[j].0 != s[0].0 by {
            if j >= 2 {
                assert(s[j] == (file_stem(apps[j - 2].0@), apps[j - 2].1@));
            } else {
                assert(s[1].0 != s[0].0) by {
                    assert(s[1].0[0] != s[0].0[0]);
                }
            }
        }
        lemma_entries_map_last(s, 0);
    }
    if forall|j: int| 0 <= j < apps.len() ==> file_stem(#[trigger] apps[j].0@) != "Alfred Preferences"@ {
        assert forall|j: int| 1 < j < s.len() implies #[trigger] s[j].0 != s[1].0 by {
            assert(s[j] == (file_stem(apps[j - 2].0@), apps[j - 2].1@));
        }
        lemma_entries_map_last(s, 1);
    }
}

/// IntelliJ IDEA's path: `<home>/Applications/JetBrains Toolbox/IntelliJ
/// IDEA Ultimate.app`, with no second '/' after a home that ends in one.
pub proof fn lemma_idea_path(home: Seq<char>)
    ensures
        home.len() > 0 && home.last() != '/' ==> idea_path(home) == home + seq!['/'] + "Applications"@
            + seq!['/'] + "JetBrains Toolbox"@ + seq!['/'] + "IntelliJ IDEA Ultimate.app"@,
        home.len() > 0 && home.last() == '/' ==> idea_path(home) == home + "Applications"@
            + seq!['/'] + "JetBrains Toolbox"@ + seq!['/'] + "IntelliJ IDEA Ultimate.app"@,
{
    reveal_strlit("Applications");
    reveal_strlit("JetBrains Toolbox");
    let a = "Applications"@;
    let j = "JetBrains Toolbox"@;
    if home.len() > 0 && home.last() != '/' {
        let s1 = home + seq!['/'] + a;
        assert(s1.last() == a.last());
        let s2 = s1 + seq!['/'] + j;
        assert(s2.last() == j.last());
    }
    if home.len() > 0 && home.last() == '/' {
        let s1 = home + a;
        assert(s1.last() == a.last());
        let s2 = s1 + seq!['/'] + j;
        assert(s2.last() == j.last());
    }
}

/// The item of each kind of action, written out: its id, title, subtitle,
/// the command that switches to it, and its icon.
pub proof fn lemma_item_of(a: ActionView, icons: Map<Seq<char>, Seq<char>>)
    ensures
        item_of(a, icons).typ == AlfredItemType::Default,
        item_of(a, icons).autocomplete == item_of(a, icons).title,
        item_of(a, icons).icon.typ == ItemIconType::IconForFileAtPath,
        a matches ActionView::Chrome { name, window, tab } ==> {
            &&& item_of(a, icons).uid == decimal(window as nat) + "-"@ + decimal(tab as nat) + "-"@
                + ascii_lower(name)
            &&& item_of(a, icons).title == name + " - Chrome Tab"@
            &&& item_of(a, icons).subtitle == "Google Chrome"@
            &&& item_of(a, icons).arg == "open-chrome "@ + decimal(window as nat) + " "@ + decimal(
                tab as nat,
            )
            &&& item_of(a, icons).icon.path == "/Applications/Google Chrome.app"@
        },
        a matches ActionView::iTerm { name, window, tab } ==> {
            &&& item_of(a, icons).uid == decimal(window as nat) + "-"@ + decimal(tab as nat) + "-"@
                + ascii_lower(name)
            &&& item_of(a, icons).title == name + " - iTerm Session"@
            &&& item_of(a, icons).subtitle == "iTerm"@
            &&& item_of(a, icons).arg == "open-iterm "@ + decimal(window as nat) + " "@ + decimal(
                tab as nat,
            )
            &&& item_of(a, icons).icon.path == "/Applications/iTerm.app"@
        },
        a matches ActionView::Window { process, window_name } ==> {
            &&& item_of(a, icons).uid == ascii_lower(process) + "-"@ + ascii_lower(window_name)
            &&& item_of(a, icons).title == window_name + " - "@ + process
            &&& item_of(a, icons).subtitle == process
            &&& item_of(a, icons).arg == "open \""@ + process + "\" \""@ + window_name + "\""@
            &&& item_of(a, icons).icon.path == if icons.dom().contains(process) {
                icons[process]
            } else {
                Seq::<char>::empty()
            }
        },
{
}

// ---------------------------------------------------------------------------
// The texts of an action's item
// ---------------------------------------------------------------------------

impl LaunchAction {
    /// The unique id of the action's item.
    pub fn uid(&self) -> (r: String)
        ensures
            r@ == uid_of(self@),
    {
        let mut s = String::new();
        match self {
            LaunchAction::Chrome(t) | LaunchAction::iTerm(t) => {
                push_decimal(&mut s, t.window);
                s.append("-");
                push_decimal(&mut s, t.tab);
                s.append("-");
                push_lowercase(&mut s, t.name.as_str());
            },
            LaunchAction::Window(w) => {
                push_lowercase(&mut s, w.process.as_str());
                s.append("-");
                push_lowercase(&mut s, w.window_name.as_str());
            },
        }
        assert(s@ =~= uid_of(self@));
        s
    }

    /// The title of the action's item.
    pub fn name(&self) -> (r: String)
        ensures
            r@ == name_of(self@),
    {
        match self {
            LaunchAction::Chrome(t) => {
                let mut s = t.name.clone();
                s.append(" - Chrome Tab");
                s
            },
            LaunchAction::iTerm(t) => {
                let mut s = t.name.clone();
                s.append(" - iTerm Session");
                s
            },
            LaunchAction::Window(w) => {
                let mut s = w.window_name.clone();
                s.append(" - ");
                s.append(w.process.as_str());
                s
            },
        }
    }

    /// The application that the action brings forward.
    pub fn process_name(&self) -> (r: String)
        ensures
            r@ == process_name_of(self@),
    {
        match self {
            LaunchAction::Chrome(_) => String::from_str("Google Chrome"),
            LaunchAction::iTerm(_) => String::from_str("iTerm"),
            LaunchAction::Window(w) => w.process.clone(),
        }
    }

    /// The arguments that switch to the action's target.
    pub fn args(&self) -> (r: String)
        ensures
            r@ == args_of(self@),
    {
        match self {
            LaunchAction::Chrome(t) => {
                let mut s = String::from_str("open-chrome ");
                push_decimal(&mut s, t.window);
                s.append(" ");
                push_decimal(&mut s, t.tab);
                s
            },
            LaunchAction::iTerm(t) => {
                let mut s = String::from_str("open-iterm ");
                push_decimal(&mut s, t.window);
                s.append(" ");
                push_decimal(&mut s, t.tab);
                s
            },
            LaunchAction::Window(w) => {
                let mut s = String::from_str("open \"");
                s.append(w.process.as_str());
                s.append("\" \"");
                s.append(w.window_name.as_str());
                s.append("\"");
                s
            },
        }
    }

    /// The icon of the action's item.
    pub fn icon(&self, icon_lookup: &IconLookup) -> (r: ItemIcon)
        ensures
            r@ == icon_of(self@, icon_lookup@),
    {
        match self {
            LaunchAction::Chrome(_) => ItemIcon {
                typ: ItemIconType::IconForFileAtPath,
                path: String::from_str("/Applications/Google Chrome.app"),
            },
            LaunchAction::iTerm(_) => ItemIcon {
                typ: ItemIconType::IconForFileAtPath,
                path: String::from_str("/Applications/iTerm.app"),
            },
            LaunchAction::Window(w) => {
                let path = match icon_lookup.get(&w.process) {
                    Some(p) => p,
                    None => String::new(),
                };
                ItemIcon { typ: ItemIconType::IconForFileAtPath, path }
            },
        }
    }

    /// The Alfred item of the action.
    pub fn alfred_item(&self, icon_lookup: &IconLookup) -> (r: AlfredItem)
        ensures
            r@ == item_of(self@, icon_lookup@),
    {
        AlfredItem {
            uid: self.uid(),
            typ: AlfredItemType::Default,
            title: self.name(),
            subtitle: self.process_name(),
            arg: self.args(),
            autocomplete: self.name(),
            icon: self.icon(icon_lookup),
        }
    }
}

} // verus!

//! The default answer: every listed window, then every iTerm session, then
//! every Chrome tab, as Alfred items.

use vstd::prelude::*;

use crate::alfred::{AlfredItem, AlfredItemView, AlfredItems};
use crate::launch::{ActionView, IconLookup, LaunchAction, LaunchWindow, TabLauncher, actions_view, item_of};
use crate::tabs::{parse_tabs, tab_actions, tab_lines, tab_output_ok};

verus! {

/// An on-screen window as the window server reports it.
pub struct WindowInfo {
    pub app_name: String,
    pub win_name: String,
    /// The window layer, when the server gave it as a 32- or 64-bit number.
    pub layer: Option<i64>,
}

/// A window to offer: its application and its title.
pub struct WindowName {
    pub app_name: String,
    pub win_name: String,
}

/// Whether a window is an ordinary one: it sits on layer 0.
pub open spec fn is_listed(w: WindowInfo) -> bool {
    w.layer == Some(0i64)
}

/// The (application, title) pairs of the ordinary windows, in order.
pub open spec fn listed_view(infos: Seq<WindowInfo>) -> Seq<(Seq<char>, Seq<char>)>
    decreases infos.len(),
{
    if infos.len() == 0 {
        seq![]
    } else {
        let prev = listed_view(infos.drop_last());
        let w = infos.last();
        if is_listed(w) {
            prev.push((w.app_name@, w.win_name@))
        } else {
            prev
        }
    }
}

/// The views of a list of window names.
pub open spec fn names_view(v: Seq<WindowName>) -> Seq<(Seq<char>, Seq<char>)> {
    v.map_values(|w: WindowName| (w.app_name@, w.win_name@))
}

/// The windows that are offered: those on layer 0, in the order given.
pub fn listed_windows(infos: &Vec<WindowInfo>) -> (r: Vec<WindowName>)
    ensures
        names_view(r@) == listed_view(infos@),
{
    let mut r: Vec<WindowName> = Vec::new();
    let mut k: usize = 0;
    while k < infos.len()
        invariant
            k <= infos.len(),
            names_view(r@) == listed_view(infos@.take(k as int)),
        decreases infos.len() - k,
    {
        let w = &infos[k];
        let ghost before = r@;
        let keep = match w.layer {
            Some(l) => l == 0,
            None => false,
        };
        if keep {
            r.push(WindowName { app_name: w.app_name.clone(), win_name: w.win_name.clone() });
            assert(names_view(r@) =~= names_view(before).push((w.app_name@, w.win_name@)));
        }
        k = k + 1;
        assert(infos@.take(k as int).drop_last() =~= infos@.take(k - 1));
    }
    assert(infos@.take(k as int) =~= infos@);
    r
}

/// The action of a window.
pub open spec fn window_view(w: (Seq<char>, Seq<char>)) -> ActionView {
    ActionView::Window { process: w.0, window_name: w.1 }
}

/// One window action per window name, in order.
pub fn window_actions(windows: &Vec<WindowName>) -> (r: Vec<LaunchAction>)
    ensures
        actions_view(r@) == names_view(windows@).map_values(|w: (Seq<char>, Seq<char>)| window_view(w)),
{
    let mut r: Vec<LaunchAction> = Vec::new();
    let mut k: usize = 0;
    while k < windows.len()
        invariant
            k <= windows.len(),
            actions_view(r@) == names_view(windows@.take(k as int)).map_values(
                |w: (Seq<char>, Seq<char>)| window_view(w),
            ),
        decreases windows.len() - k,
    {
        let w = &windows[k];
        let ghost before = r@;
        r.push(LaunchAction::Window(LaunchWindow { process: w.app_name.clone(), window_name: w.win_name.clone() }));
        k = k + 1;
        assert(actions_view(r@) =~= actions_view(before).push(
            ActionView::Window { process: w.app_name@, window_name: w.win_name@ },
        ));
        assert(names_view(windows@.take(k as int)) =~= names_view(windows@.take(k - 1)).push(
            (w.app_name@, w.win_name@),
        ));
        assert(actions_view(r@) =~= names_view(windows@.take(k as int)).map_values(
            |w: (Seq<char>, Seq<char>)| window_view(w),
        ));
    }
    assert(windows@.take(k as int) =~= windows@);
    r
}

/// The Alfred items of some actions, in order.
pub fn alfred_items(actions: &Vec<LaunchAction>, icons: &IconLookup, items: &mut Vec<AlfredItem>)
    ensures
        final(items)@.map_values(|i: AlfredItem| i@) == old(items)@.map_values(|i: AlfredItem| i@)
            + actions_view(actions@).map_values(|a: ActionView| item_of(a, icons@)),
{
    let ghost start = items@.map_values(|i: AlfredItem| i@);
    let mut k: usize = 0;
    while k < actions.len()
        invariant
            k <= actions.len(),
            items@.map_values(|i: AlfredItem| i@) == start + actions_view(
                actions@.take(k as int),
            ).map_values(|a: ActionView| item_of(a, icons@)),
        decreases actions.len() - k,
    {
        let item = actions[k].alfred_item(icons);
        let ghost before = items@;
        items.push(item);
        k = k + 1;
        assert(items@.map_values(|i: AlfredItem| i@) =~= before.map_values(|i: AlfredItem| i@).push(
            item@,
        ));
        assert(actions_view(actions@.take(k as int)).map_values(|a: ActionView| item_of(a, icons@))
            =~= actions_view(actions@.take(k - 1)).map_values(|a: ActionView| item_of(a, icons@)).push(
            item_of(actions@[k - 1]@, icons@),
        ));
    }
    assert(actions@.take(k as int) =~= actions@);
}

/// The actions that a script's output lists.
pub open spec fn listed_tabs(stdout: Seq<u8>, typ: TabLauncher) -> Seq<ActionView> {
    tab_actions(tab_lines(vstd::utf8::decode_utf8(stdout)), typ)
}

/// The default answer: the windows, the iTerm sessions and the Chrome tabs,
/// in that order, as Alfred items.
pub open spec fn results_spec(
    windows: Seq<(Seq<char>, Seq<char>)>,
    chrome_stdout: Seq<u8>,
    iterm_stdout: Seq<u8>,
    icons: Map<Seq<char>, Seq<char>>,
) -> Seq<AlfredItemView> {
    (windows.map_values(|w: (Seq<char>, Seq<char>)| window_view(w)) + listed_tabs(
        iterm_stdout,
        TabLauncher::iTerm,
    ) + listed_tabs(chrome_stdout, TabLauncher::Chrome)).map_values(
        |a: ActionView| item_of(a, icons),
    )
}

/// The default answer, from the windows on screen and the outputs of the
/// Chrome and iTerm tab scripts.
pub fn results(
    windows: Vec<WindowName>,
    chrome_stdout: Vec<u8>,
    iterm_stdout: Vec<u8>,
    icons: &IconLookup,
) -> (r: AlfredItems)
    requires
        tab_output_ok(chrome_stdout@),
        tab_output_ok(iterm_stdout@),
    ensures
        r@ == results_spec(names_view(windows@), chrome_stdout@, iterm_stdout@, icons@),
{
    let ghost wv = names_view(windows@);
    let window_list = window_actions(&windows);
    let chrome = parse_tabs(chrome_stdout, TabLauncher::Chrome).unwrap();
    let iterm = parse_tabs(iterm_stdout, TabLauncher::iTerm).unwrap();
    let mut items: Vec<AlfredItem> = Vec::new();
    alfred_items(&window_list, icons, &mut items);
    alfred_items(&iterm, icons, &mut items);
    alfred_items(&chrome, icons, &mut items);
    let r = AlfredItems { items };
    assert(r@ =~= (wv.map_values(|w: (Seq<char>, Seq<char>)| window_view(w)) + actions_view(
        iterm@,
    ) + actions_view(chrome@)).map_values(|a: ActionView| item_of(a, icons@)));
    r
}

/// A window is offered exactly when it sits on layer 0: adding a window
/// adds its (application, title) at the end when its layer is `Some(0)`,
/// and changes nothing otherwise (no layer, or any other layer, negative
/// ones included).
pub proof fn lemma_listed_push(infos: Seq<WindowInfo>, w: WindowInfo)
    ensures
        listed_view(infos.push(w)) == if w.layer == Some(0i64) {
            listed_view(infos).push((w.app_name@, w.win_name@))
        } else {
            listed_view(infos)
        },
{
    assert(infos.push(w).drop_last() =~= infos);
}

/// Every offered window is one of the given windows, on layer 0, in the
/// same order; none is offered when no window is on layer 0.
pub proof fn lemma_listed_from_layer_zero(infos: Seq<WindowInfo>)
    ensures
        listed_view(infos).len() <= infos.len(),
        forall|k: int|
            #![trigger listed_view(infos)[k]]
            0 <= k < listed_view(infos).len() ==> exists|i: int|
                0 <= i < infos.len() && (#[trigger] infos[i]).layer == Some(0i64) && listed_view(
                    infos,
                )[k] == (infos[i].app_name@, infos[i].win_name@),
        (forall|i: int| 0 <= i < infos.len() ==> (#[trigger] infos[i]).layer != Some(0i64))
            ==> listed_view(infos).len() == 0,
    decreases infos.len(),
{
    if infos.len() > 0 {
        let init = infos.drop_last();
        lemma_listed_from_layer_zero(init);
        assert(init.push(infos.last()) =~= infos);
        lemma_listed_push(init, infos.last());
        let r = listed_view(infos);
        assert forall|k: int| #![trigger listed_view(infos)[k]] 0 <= k < r.len() implies exists|i: int|
            0 <= i < infos.len() && (#[trigger] infos[i]).layer == Some(0i64) && r[k] == (
                infos[i].app_name@,
                infos[i].win_name@,
            ) by {
            if k < listed_view(init).len() {
                let i = choose|i: int|
                    0 <= i < init.len() && (#[trigger] init[i]).layer == Some(0i64) && listed_view(
                        init,
                    )[k] == (init[i].app_name@, init[i].win_name@);
                assert(infos[i] == init[i]);
            } else {
                assert(infos[infos.len() - 1] == infos.last());
            }
        }
        if forall|i: int| 0 <= i < infos.len() ==> (#[trigger] infos[i]).layer != Some(0i64) {
            assert forall|i: int| 0 <= i < init.len() implies (#[trigger] init[i]).layer != Some(
                0i64,
            ) by {
                assert(init[i] == infos[i]);
            }
            assert(infos[infos.len() - 1] == infos.last());
        }
    }
}

/// The default answer holds one item per window, then per iTerm session,
/// then per Chrome tab; each is the item of its action built with the
/// lookup that was passed in, so a window's icon is the path that the
/// lookup gives for its application.
pub proof fn lemma_results_items(
    windows: Seq<(Seq<char>, Seq<char>)>,
    chrome_stdout: Seq<u8>,
    iterm_stdout: Seq<u8>,
    icons: Map<Seq<char>, Seq<char>>,
)
    ensures
        ({
            let r = results_spec(windows, chrome_stdout, iterm_stdout, icons);
            let it = listed_tabs(iterm_stdout, TabLauncher::iTerm);
            let ch = listed_tabs(chrome_stdout, TabLauncher::Chrome);
            &&& r.len() == windows.len() + it.len() + ch.len()
            &&& forall|k: int|
                0 <= k < windows.len() ==> #[trigger] r[k] == item_of(
                    ActionView::Window { process: windows[k].0, window_name: windows[k].1 },
                    icons,
                )
            &&& forall|k: int|
                0 <= k < windows.len() ==> (#[trigger] r[k]).icon.path == if icons.dom().contains(
                    windows[k].0,
                ) {
                    icons[windows[k].0]
                } else {
                    Seq::<char>::empty()
                }
            &&& forall|j: int| 0 <= j < it.len() ==> r[windows.len() + j] == item_of(#[trigger] it[j], icons)
            &&& forall|j: int|
                0 <= j < ch.len() ==> r[windows.len() + it.len() + j] == item_of(#[trigger] ch[j], icons)
        }),
{
    let it = listed_tabs(iterm_stdout, TabLauncher::iTerm);
    let ch = listed_tabs(chrome_stdout, TabLauncher::Chrome);
    let ws = windows.map_values(|w: (Seq<char>, Seq<char>)| window_view(w));
    let all = ws + it + ch;
    let r = results_spec(windows, chrome_stdout, iterm_stdout, icons);
    assert forall|k: int| 0 <= k < windows.len() implies #[trigger] r[k] == item_of(
        ActionView::Window { process: windows[k].0, window_name: windows[k].1 },
        icons,
    ) by {
        assert(all[k] == ws[k]);
    }
    assert forall|j: int| 0 <= j < it.len() implies r[windows.len() + j] == item_of(
        #[trigger] it[j],
        icons,
    ) by {
        assert(all[windows.len() + j] == it[j]);
    }
    assert forall|j: int| 0 <= j < ch.len() implies r[windows.len() + it.len() + j] == item_of(
        #[trigger] ch[j],
        icons,
    ) by {
        assert(all[windows.len() + it.len() + j] == ch[j]);
    }
}

} // verus!

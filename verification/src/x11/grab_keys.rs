//! The key combinations the window manager grabs on the root window.
use vstd::prelude::*;

use crate::config::{Config, CustomKey};
use crate::wm::keys::{binding_of, custom_action, key_action, parse_binding, KeyActionView};
use crate::Window;

verus! {

/// The digit-key grabs: keycodes `0x0a` to `0x12`, each with the
/// workspace-switch modifiers and then with the workspace-move modifiers.
pub open spec fn workspace_grabs(switch_mod: u16, move_mod: u16) -> Seq<(u16, u8)> {
    Seq::new(
        18,
        |i: int|
            (
                if i % 2 == 0 {
                    switch_mod
                } else {
                    move_mod
                },
                (0x0a + i / 2) as u8,
            ),
    )
}

/// The grabs of the bindings `bs`, in order, leaving out those that name no
/// known key.
pub open spec fn binding_grabs(bs: Seq<Seq<char>>) -> Seq<(u16, u8)>
    decreases bs.len(),
{
    if bs.len() == 0 {
        Seq::empty()
    } else if binding_of(bs.last()).1 != 0 {
        binding_grabs(bs.drop_last()).push(binding_of(bs.last()))
    } else {
        binding_grabs(bs.drop_last())
    }
}

/// The bindings grabbed: the built-in ones in a fixed order, then the custom ones.
pub open spec fn grabbed_bindings(config: Config) -> Seq<Seq<char>> {
    let kb = config.keybinds;
    seq![
        kb.close_window@,
        kb.quit@,
        kb.restart@,
        kb.swap_master@,
        kb.focus_next@,
        kb.focus_prev@,
        kb.terminal@,
        kb.workspace_switch@,
        kb.workspace_move@,
    ] + config.custom_keys@.map_values(|ck: CustomKey| ck.binding@)
}

/// Every grab the configuration asks for, in the order they are made.
pub open spec fn key_grabs(config: Config) -> Seq<(u16, u8)> {
    workspace_grabs(
        binding_of(config.keybinds.workspace_switch@).0,
        binding_of(config.keybinds.workspace_move@).0,
    ) + binding_grabs(grabbed_bindings(config))
}

/// The `(modifier mask, keycode)` pairs to grab on the root window.
pub fn grab_keys(config: &Config) -> (r: Vec<(u16, u8)>)
    ensures
        r@ == key_grabs(*config),
{
    let kb = &config.keybinds;
    let mut bindings: Vec<&str> = vec![
        kb.close_window.as_str(),
        kb.quit.as_str(),
        kb.restart.as_str(),
        kb.swap_master.as_str(),
        kb.focus_next.as_str(),
        kb.focus_prev.as_str(),
        kb.terminal.as_str(),
        kb.workspace_switch.as_str(),
        kb.workspace_move.as_str(),
    ];
    let mut c: usize = 0;
    while c < config.custom_keys.len()
        invariant
            c <= config.custom_keys.len(),
            bindings.len() == 9 + c,
            bindings@.map_values(|s: &str| s@) =~= grabbed_bindings(*config).take(9 + c),
        decreases config.custom_keys.len() - c,
    {
        bindings.push(config.custom_keys[c].binding.as_str());
        c = c + 1;
    }
    let ghost bs = grabbed_bindings(*config);
    assert(bindings@.map_values(|s: &str| s@) =~= bs);
    let switch_mod = parse_binding(kb.workspace_switch.as_str()).0;
    let move_mod = parse_binding(kb.workspace_move.as_str()).0;
    let ghost wg = workspace_grabs(switch_mod, move_mod);
    let mut r: Vec<(u16, u8)> = Vec::new();
    let mut kc: u8 = 0x0a;
    while kc <= 0x12
        invariant
            0x0a <= kc <= 0x13,
            r@ =~= wg.take(2 * (kc - 0x0a)),
            wg == workspace_grabs(switch_mod, move_mod),
        decreases 0x13 - kc,
    {
        r.push((switch_mod, kc));
        r.push((move_mod, kc));
        proof {
            let k = 2 * (kc - 0x0a);
            assert(k % 2 == 0 && (k + 1) % 2 == 1);
            assert(k / 2 == kc - 0x0a && (k + 1) / 2 == kc - 0x0a);
        }
        kc = kc + 1;
    }
    assert(r@ =~= wg);
    let mut k: usize = 0;
    while k < bindings.len()
        invariant
            k <= bindings.len(),
            bindings@.map_values(|s: &str| s@) == bs,
            r@ == wg + binding_grabs(bs.take(k as int)),
        decreases bindings.len() - k,
    {
        proof {
            assert(bs.take(k + 1).drop_last() =~= bs.take(k as int));
            assert(bs.take(k + 1).last() == bindings[k as int]@);
        }
        let (m, code) = parse_binding(bindings[k]);
        if code != 0 {
            r.push((m, code));
        }
        k = k + 1;
    }
    proof {
        assert(bs.take(bindings.len() as int) =~= bs);
    }
    r
}

proof fn lemma_binding_grabbed(bs: Seq<Seq<char>>, j: int)
    requires
        0 <= j < bs.len(),
        binding_of(bs[j]).1 != 0,
    ensures
        binding_grabs(bs).contains(binding_of(bs[j])),
    decreases bs.len(),
{
    let t = bs.drop_last();
    if j == bs.len() - 1 {
        let g = binding_grabs(bs);
        assert(g == binding_grabs(t).push(binding_of(bs.last())));
        assert(g[g.len() - 1] == binding_of(bs[j]));
    } else {
        assert(t[j] == bs[j]);
        lemma_binding_grabbed(t, j);
        let r = binding_grabs(t);
        let k = choose|k: int| 0 <= k < r.len() && r[k] == binding_of(bs[j]);
        if binding_of(bs.last()).1 != 0 {
            assert(binding_grabs(bs)[k] == r[k]);
        }
    }
}

proof fn lemma_custom_matched(keys: Seq<CustomKey>, modmask: u16, keycode: u8, focus: Option<Window>)
    requires
        custom_action(keys, modmask, keycode, focus) != KeyActionView::Nothing,
    ensures
        exists|j: int| 0 <= j < keys.len() && binding_of(#[trigger] keys[j].binding@) == (modmask, keycode),
    decreases keys.len(),
{
    if binding_of(keys[0].binding@) != (modmask, keycode) {
        lemma_custom_matched(keys.drop_first(), modmask, keycode, focus);
        let j = choose|j: int|
            0 <= j < keys.drop_first().len() && binding_of(#[trigger] keys.drop_first()[j].binding@) == (
                modmask,
                keycode,
            );
        assert(keys[j + 1] == keys.drop_first()[j]);
    }
}

/// Every key press the window manager acts on is one it grabs: when a
/// press with modifier state `state` and a real keycode asks for anything,
/// its modifiers and keycode are among the grabs.
pub proof fn law_acted_keys_are_grabbed(config: Config, focus: Option<Window>, state: u16, keycode: u8)
    requires
        keycode != 0,
        key_action(config, focus, state, keycode) != KeyActionView::Nothing,
    ensures
        key_grabs(config).contains((state & 0xff, keycode)),
{
    let mm = state & 0xff;
    let kb = config.keybinds;
    let sw = binding_of(kb.workspace_switch@).0;
    let mv = binding_of(kb.workspace_move@).0;
    let wg = workspace_grabs(sw, mv);
    let bs = grabbed_bindings(config);
    let all = key_grabs(config);
    assert(all == wg + binding_grabs(bs));
    if 0x0a <= keycode <= 0x12 && (mm == mv || mm == sw) {
        let i = 2 * (keycode - 0x0a) + if mm == sw { 0int } else { 1int };
        assert(i / 2 == keycode - 0x0a);
        assert(wg[i] == (mm, keycode));
        assert(all[i] == wg[i]);
    } else {
        let found: int = if binding_of(kb.close_window@) == (mm, keycode) {
            0
        } else if binding_of(kb.quit@) == (mm, keycode) {
            1
        } else if binding_of(kb.restart@) == (mm, keycode) {
            2
        } else if binding_of(kb.swap_master@) == (mm, keycode) {
            3
        } else if binding_of(kb.focus_next@) == (mm, keycode) {
            4
        } else if binding_of(kb.focus_prev@) == (mm, keycode) {
            5
        } else if binding_of(kb.terminal@) == (mm, keycode) {
            6
        } else {
            lemma_custom_matched(config.custom_keys@, mm, keycode, focus);
            let j = choose|j: int|
                0 <= j < config.custom_keys@.len() && binding_of(
                    #[trigger] config.custom_keys@[j].binding@,
                ) == (mm, keycode);
            9 + j
        };
        assert(binding_of(bs[found]) == (mm, keycode));
        lemma_binding_grabbed(bs, found);
        let g = binding_grabs(bs);
        let k = choose|k: int| 0 <= k < g.len() && g[k] == (mm, keycode);
        assert(all[wg.len() + k] == g[k]);
    }
}

} // verus!

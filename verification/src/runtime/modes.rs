//! The terminal modes a pane carries, and how to put another terminal into
//! them.

use crate::text::{all_chars, decimal, decimal_text, lemma_decimal_digits};
use vstd::prelude::*;

verus! {

/// The terminal modes a program sets once, at startup, and never repeats.
///
/// A client that attaches later cannot learn these from the output it is
/// replayed. `Default` is a freshly opened terminal rather than all-false:
/// `25` (visible cursor), `7` (autowrap) and `1007` (alternate scroll) are on
/// until a program turns them off.
#[derive(Debug, Clone, Copy, PartialEq, Eq, Structural)]
pub struct PaneModes {
    /// DECSET 1049: the program draws on the alternate screen.
    pub alt_screen: bool,
    /// DECSET 1: arrows send `ESC O A` rather than `ESC [ A`.
    pub app_cursor: bool,
    /// DECSET 2004: pasted text arrives wrapped in `ESC [ 200~`/`ESC [ 201~`.
    pub bracketed_paste: bool,
    /// DECSET 25.
    pub show_cursor: bool,
    /// DECSET 7 (autowrap).
    pub line_wrap: bool,
    /// DECSET 1000: report button presses.
    pub mouse_click: bool,
    /// DECSET 1002: report drags.
    pub mouse_drag: bool,
    /// DECSET 1003: report every motion.
    pub mouse_motion: bool,
    /// DECSET 1006: report in SGR form.
    pub sgr_mouse: bool,
    /// DECSET 1005.
    pub utf8_mouse: bool,
    /// DECSET 1007: the wheel sends arrow keys on the alternate screen.
    pub alternate_scroll: bool,
    /// DECSET 1004: report focus changes.
    pub focus_in_out: bool,
}

/// The modes of a freshly opened terminal.
pub open spec fn fresh_modes() -> PaneModes {
    PaneModes {
        alt_screen: false,
        app_cursor: false,
        bracketed_paste: false,
        show_cursor: true,
        line_wrap: true,
        mouse_click: false,
        mouse_drag: false,
        mouse_motion: false,
        sgr_mouse: false,
        utf8_mouse: false,
        alternate_scroll: true,
        focus_in_out: false,
    }
}

impl Default for PaneModes {
    fn default() -> (r: PaneModes)
        ensures
            r == fresh_modes(),
    {
        PaneModes {
            alt_screen: false,
            app_cursor: false,
            bracketed_paste: false,
            show_cursor: true,
            line_wrap: true,
            mouse_click: false,
            mouse_drag: false,
            mouse_motion: false,
            sgr_mouse: false,
            utf8_mouse: false,
            alternate_scroll: true,
            focus_in_out: false,
        }
    }
}

/// The modes in the order they are announced, each with its DEC number.
/// `1049` leads: it switches buffers, and the rest must land in the buffer the
/// program is drawing on.
pub open spec fn announced_modes(m: PaneModes) -> Seq<(u64, bool)> {
    seq![
        (1049u64, m.alt_screen),
        (1u64, m.app_cursor),
        (7u64, m.line_wrap),
        (25u64, m.show_cursor),
        (1000u64, m.mouse_click),
        (1002u64, m.mouse_drag),
        (1003u64, m.mouse_motion),
        (1004u64, m.focus_in_out),
        (1005u64, m.utf8_mouse),
        (1006u64, m.sgr_mouse),
        (1007u64, m.alternate_scroll),
        (2004u64, m.bracketed_paste),
    ]
}

/// The bytes of an ASCII text.
pub open spec fn ascii_bytes(s: Seq<char>) -> Seq<u8> {
    s.map_values(|c: char| c as u8)
}

/// The escape sequence that sets (`h`) or resets (`l`) one private mode.
pub open spec fn mode_sequence(number: u64, on: bool) -> Seq<u8> {
    seq![0x1bu8, 0x5b, 0x3f] + ascii_bytes(decimal_text(number as nat)) + seq![
        if on {
            0x68u8
        } else {
            0x6cu8
        },
    ]
}

/// The sequences of several modes, one after another.
pub open spec fn mode_sequences(modes: Seq<(u64, bool)>) -> Seq<u8>
    decreases modes.len(),
{
    if modes.len() == 0 {
        Seq::empty()
    } else {
        mode_sequences(modes.drop_last()) + mode_sequence(modes.last().0, modes.last().1)
    }
}

/// Append an ASCII text to `out`.
fn push_ascii(out: &mut Vec<u8>, text: &str)
    requires
        all_chars(text@, |c: char| c as u32 <= 127),
    ensures
        final(out)@ == old(out)@ + ascii_bytes(text@),
{
    let chars = crate::text::chars_of(text);
    let mut i: usize = 0;
    while i < chars.len()
        invariant
            i <= chars@.len(),
            chars@ == text@,
            forall|k: int| 0 <= k < chars@.len() ==> (#[trigger] chars@[k]) as u32 <= 127,
            out@ == old(out)@ + ascii_bytes(chars@.take(i as int)),
        decreases chars.len() - i,
    {
        out.push(chars[i] as u8);
        proof {
            assert(ascii_bytes(chars@.take(i + 1)) =~= ascii_bytes(chars@.take(i as int)).push(
                chars@[i as int] as u8,
            ));
            assert(out@ =~= old(out)@ + ascii_bytes(chars@.take(i + 1)));
        }
        i += 1;
    }
    proof {
        assert(chars@.take(i as int) =~= text@);
    }
}

fn push_mode(out: &mut Vec<u8>, number: u64, on: bool)
    ensures
        final(out)@ == old(out)@ + mode_sequence(number, on),
{
    let digits = decimal(number);
    proof {
        lemma_decimal_digits(number as nat);
    }
    out.push(0x1b);
    out.push(0x5b);
    out.push(0x3f);
    push_ascii(out, digits.as_str());
    out.push(
        if on {
            0x68
        } else {
            0x6c
        },
    );
    proof {
        assert(out@ =~= old(out)@ + mode_sequence(number, on));
    }
}

impl PaneModes {
    /// The sequences that put another terminal into this state.
    ///
    /// Every tracked mode is emitted, set or reset, rather than only those
    /// differing from a fresh terminal: the receiver's defaults are its own
    /// business, and an absolute prelude cannot be wrong about them.
    pub fn prelude(&self) -> (r: Vec<u8>)
        ensures
            r@ == mode_sequences(announced_modes(*self)),
    {
        let modes = [
            (1049u64, self.alt_screen),
            (1u64, self.app_cursor),
            (7u64, self.line_wrap),
            (25u64, self.show_cursor),
            (1000u64, self.mouse_click),
            (1002u64, self.mouse_drag),
            (1003u64, self.mouse_motion),
            (1004u64, self.focus_in_out),
            (1005u64, self.utf8_mouse),
            (1006u64, self.sgr_mouse),
            (1007u64, self.alternate_scroll),
            (2004u64, self.bracketed_paste),
        ];
        let ghost all = announced_modes(*self);
        proof {
            assert(modes@ =~= all);
            assert(all.take(0) =~= Seq::<(u64, bool)>::empty());
        }
        let mut out: Vec<u8> = Vec::new();
        let mut i: usize = 0;
        while i < 12
            invariant
                i <= 12,
                modes@ == all,
                all.len() == 12,
                out@ == mode_sequences(all.take(i as int)),
            decreases 12 - i,
        {
            let (number, on) = modes[i];
            push_mode(&mut out, number, on);
            proof {
                assert(all.take(i + 1).drop_last() =~= all.take(i as int));
                assert(all.take(i + 1).last() == all[i as int]);
            }
            i += 1;
        }
        proof {
            assert(all.take(12) =~= all);
        }
        out
    }
}


/// Two lists that announce the same numbers in the same bytes announce the
/// same settings.
proof fn lemma_sequences_differ(a: Seq<(u64, bool)>, b: Seq<(u64, bool)>)
    requires
        a.len() == b.len(),
        forall|i: int| 0 <= i < a.len() ==> (#[trigger] a[i]).0 == b[i].0,
        mode_sequences(a) == mode_sequences(b),
    ensures
        a == b,
    decreases a.len(),
{
    if a.len() > 0 {
        let x = mode_sequences(a.drop_last());
        let y = mode_sequences(b.drop_last());
        let n = a.last().0;
        assert(n == b.last().0);
        let s = mode_sequence(n, a.last().1);
        let t = mode_sequence(n, b.last().1);
        assert(s.len() == t.len());
        assert(mode_sequences(a).len() == x.len() + s.len());
        assert(mode_sequences(b).len() == y.len() + t.len());
        assert(mode_sequences(a).last() == s.last());
        assert(mode_sequences(b).last() == t.last());
        assert(a.last().1 == b.last().1);
        assert(x =~= mode_sequences(a).take(x.len() as int));
        assert(y =~= mode_sequences(b).take(x.len() as int));
        assert forall|i: int| 0 <= i < a.drop_last().len() implies (#[trigger] a.drop_last()[i]).0
            == b.drop_last()[i].0 by {
            assert(a[i].0 == b[i].0);
        }
        lemma_sequences_differ(a.drop_last(), b.drop_last());
        assert(a =~= a.drop_last().push(a.last()));
        assert(b =~= b.drop_last().push(b.last()));
        assert(a.last() == b.last());
    } else {
        assert(a =~= b);
    }
}

/// The prelude says every mode: two terminals that are told the same bytes are
/// in the same modes.
pub proof fn law_prelude_tells_every_mode(a: PaneModes, b: PaneModes)
    requires
        mode_sequences(announced_modes(a)) == mode_sequences(announced_modes(b)),
    ensures
        a == b,
{
    lemma_sequences_differ(announced_modes(a), announced_modes(b));
    let x = announced_modes(a);
    let y = announced_modes(b);
    assert(x[0] == y[0] && x[1] == y[1] && x[2] == y[2] && x[3] == y[3] && x[4] == y[4]);
    assert(x[5] == y[5] && x[6] == y[6] && x[7] == y[7] && x[8] == y[8] && x[9] == y[9]);
    assert(x[10] == y[10] && x[11] == y[11]);
}

/// The prelude announces every mode as it is, under its DEC number, the buffer
/// first: each as an escape sequence that ends in `h` where the mode is on and
/// in `l` where it is off.
pub proof fn law_prelude_announces_each_mode(m: PaneModes)
    ensures
        announced_modes(m)[0] == (1049u64, m.alt_screen),
        announced_modes(m).len() == 12,
        announced_modes(m).contains((1u64, m.app_cursor)),
        announced_modes(m).contains((7u64, m.line_wrap)),
        announced_modes(m).contains((25u64, m.show_cursor)),
        announced_modes(m).contains((1000u64, m.mouse_click)),
        announced_modes(m).contains((1002u64, m.mouse_drag)),
        announced_modes(m).contains((1003u64, m.mouse_motion)),
        announced_modes(m).contains((1004u64, m.focus_in_out)),
        announced_modes(m).contains((1005u64, m.utf8_mouse)),
        announced_modes(m).contains((1006u64, m.sgr_mouse)),
        announced_modes(m).contains((1007u64, m.alternate_scroll)),
        announced_modes(m).contains((2004u64, m.bracketed_paste)),
{
    let a = announced_modes(m);
    assert(a[1] == (1u64, m.app_cursor) && a[2] == (7u64, m.line_wrap));
    assert(a[3] == (25u64, m.show_cursor) && a[4] == (1000u64, m.mouse_click));
    assert(a[5] == (1002u64, m.mouse_drag) && a[6] == (1003u64, m.mouse_motion));
    assert(a[7] == (1004u64, m.focus_in_out) && a[8] == (1005u64, m.utf8_mouse));
    assert(a[9] == (1006u64, m.sgr_mouse) && a[10] == (1007u64, m.alternate_scroll));
    assert(a[11] == (2004u64, m.bracketed_paste));
}

/// Modes are told one after another, each by `ESC [ ?`, its number and `h` or
/// `l`.
pub proof fn law_modes_are_told_in_order(
    first: Seq<(u64, bool)>,
    second: Seq<(u64, bool)>,
    number: u64,
    on: bool,
)
    ensures
        mode_sequences(first + second) == mode_sequences(first) + mode_sequences(second),
        mode_sequences(seq![(number, on)]).len() == decimal_text(number as nat).len() + 4,
        mode_sequences(seq![(number, on)]).take(3) == seq![27u8, 91u8, 63u8],
        forall|i: int|
            0 <= i < decimal_text(number as nat).len() ==> #[trigger] mode_sequences(
                seq![(number, on)],
            )[i + 3] == decimal_text(number as nat)[i] as u8,
        mode_sequences(seq![(number, on)]).last() == if on {
            104u8
        } else {
            108u8
        },
    decreases second.len(),
{
    assert(seq![(number, on)].drop_last() =~= Seq::<(u64, bool)>::empty());
    assert(mode_sequences(seq![(number, on)].drop_last()) =~= Seq::<u8>::empty());
    assert(mode_sequences(seq![(number, on)]) =~= mode_sequence(number, on));
    if second.len() == 0 {
        assert(first + second =~= first);
    } else {
        law_modes_are_told_in_order(first, second.drop_last(), number, on);
        assert((first + second).drop_last() =~= first + second.drop_last());
        assert((first + second).last() == second.last());
    }
}

/// A terminal begins with its cursor shown, with lines that wrap and with
/// scrolls turned into arrow keys on the alternate screen, and with every other
/// mode off.
pub proof fn law_how_a_terminal_begins()
    ensures
        ({
            let m = fresh_modes();
            &&& m.show_cursor && m.line_wrap && m.alternate_scroll
            &&& !m.alt_screen && !m.app_cursor && !m.bracketed_paste && !m.mouse_click
                && !m.mouse_drag && !m.mouse_motion && !m.sgr_mouse && !m.utf8_mouse
                && !m.focus_in_out
        }),
{
}

} // verus!

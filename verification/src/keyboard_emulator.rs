//! Keystroke synthesis: the exact sequence of scancode events and
//! pauses that one resolved callback requires of the platform.
//!
//! A chord presses its modifiers in order, pauses 10 ms, clicks the
//! key, and releases the modifiers last-pressed-first. A callback with
//! a combo emits the combo chord, pauses 30 ms, then the primary
//! chord.

use vstd::prelude::*;

verus! {

/// A modifier key of a chord.
#[derive(Clone, Copy, Debug, PartialEq, Eq, Structural)]
pub enum Modifier {
    LShift,
    LControl,
    LAlt,
}

/// The fixed hardware scancode of a modifier: left shift 0x2A, left
/// control 0x1D, left alt 0x38.
pub open spec fn spec_modifier_scancode(m: Modifier) -> u16 {
    match m {
        Modifier::LShift => 0x2a,
        Modifier::LControl => 0x1d,
        Modifier::LAlt => 0x38,
    }
}

/// The fixed hardware scancode of a modifier.
pub fn to_key(m: &Modifier) -> (s: u16)
    ensures
        s == spec_modifier_scancode(*m),
{
    match m {
        Modifier::LShift => 0x2a,
        Modifier::LControl => 0x1d,
        Modifier::LAlt => 0x38,
    }
}

/// One step of a keystroke emission, for the platform to perform in
/// order. Every key event is by scancode, never by virtual key; the
/// extended flag accompanies the one extended key.
#[derive(Clone, Copy, Debug, PartialEq, Eq, Structural)]
pub enum InputStep {
    /// The key with this scancode goes down.
    Press { scan: u16, extended: bool },
    /// The key with this scancode comes up.
    Release { scan: u16, extended: bool },
    /// A pause of that many milliseconds.
    SleepMs { ms: u16 },
}

/// One resolved simulator callback: the primary key with its
/// modifiers, and an optional combo chord emitted before it. A
/// `combo_key_code` of zero means the callback has no combo. The
/// extended flags mark the one extended key, numpad enter.
pub struct Callback {
    pub key_code: u16,
    pub modifiers: Vec<Modifier>,
    pub extended: bool,
    pub combo_key_code: u16,
    pub combo_modifiers: Vec<Modifier>,
    pub combo_extended: bool,
}

/// The mathematical value of a callback.
pub struct CallbackModel {
    pub key_code: u16,
    pub modifiers: Seq<Modifier>,
    pub extended: bool,
    pub combo_key_code: u16,
    pub combo_modifiers: Seq<Modifier>,
    pub combo_extended: bool,
}

impl View for Callback {
    type V = CallbackModel;

    open spec fn view(&self) -> CallbackModel {
        CallbackModel {
            key_code: self.key_code,
            modifiers: self.modifiers@,
            extended: self.extended,
            combo_key_code: self.combo_key_code,
            combo_modifiers: self.combo_modifiers@,
            combo_extended: self.combo_extended,
        }
    }
}

/// The press steps of the modifiers, in their given order.
pub open spec fn presses(mods: Seq<Modifier>) -> Seq<InputStep> {
    Seq::new(
        mods.len(),
        |i: int| InputStep::Press { scan: spec_modifier_scancode(mods[i]), extended: false },
    )
}

/// The release steps of the modifiers: the last pressed is released
/// first.
pub open spec fn releases(mods: Seq<Modifier>) -> Seq<InputStep> {
    Seq::new(
        mods.len(),
        |i: int|
            InputStep::Release {
                scan: spec_modifier_scancode(mods[mods.len() - 1 - i]),
                extended: false,
            },
    )
}

/// One chord: press each modifier in order, pause 10 ms, click the
/// key (down then up), release the modifiers in reverse order.
pub open spec fn spec_chord(mods: Seq<Modifier>, scan: u16, extended: bool) -> Seq<InputStep> {
    presses(mods) + seq![InputStep::SleepMs { ms: 10 }] + seq![
        InputStep::Press { scan, extended },
        InputStep::Release { scan, extended },
    ] + releases(mods)
}

/// The whole emission for a callback: the combo chord first when the
/// callback has one, a 30 ms pause after it, then the primary chord.
pub open spec fn spec_invoke(cb: CallbackModel) -> Seq<InputStep> {
    if cb.combo_key_code != 0 {
        spec_chord(cb.combo_modifiers, cb.combo_key_code, cb.combo_extended) + seq![
            InputStep::SleepMs { ms: 30 },
        ] + spec_chord(cb.modifiers, cb.key_code, cb.extended)
    } else {
        spec_chord(cb.modifiers, cb.key_code, cb.extended)
    }
}

/// Appends one chord's steps.
fn push_chord(out: &mut Vec<InputStep>, mods: &Vec<Modifier>, scan: u16, extended: bool)
    ensures
        final(out)@ == old(out)@ + spec_chord(mods@, scan, extended),
{
    let ghost base = out@;
    let n = mods.len();
    for i in 0..n
        invariant
            n == mods@.len(),
            out@ =~= base + presses(mods@).subrange(0, i as int),
    {
        let scan_code = to_key(&mods[i]);
        out.push(InputStep::Press { scan: scan_code, extended: false });
        proof {
            assert(out@ =~= base + presses(mods@).subrange(0, i + 1));
        }
    }
    proof {
        assert(presses(mods@).subrange(0, n as int) =~= presses(mods@));
    }
    out.push(InputStep::SleepMs { ms: 10 });
    out.push(InputStep::Press { scan, extended });
    out.push(InputStep::Release { scan, extended });
    let ghost mid = out@;
    for i in 0..n
        invariant
            n == mods@.len(),
            out@ =~= mid + releases(mods@).subrange(0, i as int),
    {
        let scan_code = to_key(&mods[n - 1 - i]);
        out.push(InputStep::Release { scan: scan_code, extended: false });
        proof {
            assert(out@ =~= mid + releases(mods@).subrange(0, i + 1));
        }
    }
    proof {
        assert(releases(mods@).subrange(0, n as int) =~= releases(mods@));
        assert(out@ =~= old(out)@ + spec_chord(mods@, scan, extended));
    }
}

/// The steps one callback's keystrokes consist of: exactly the
/// combo-then-primary sequence of `spec_invoke`, with the modifier
/// ordering and the 10 ms and 30 ms pauses it prescribes.
pub fn invoke(callback: &Callback) -> (steps: Vec<InputStep>)
    ensures
        steps@ == spec_invoke(callback@),
{
    let mut out: Vec<InputStep> = Vec::new();
    if callback.combo_key_code != 0 {
        push_chord(
            &mut out,
            &callback.combo_modifiers,
            callback.combo_key_code,
            callback.combo_extended,
        );
        out.push(InputStep::SleepMs { ms: 30 });
    }
    push_chord(&mut out, &callback.modifiers, callback.key_code, callback.extended);
    proof {
        assert(out@ =~= spec_invoke(callback@));
    }
    out
}

/// Error of the platform keystroke sink.
#[derive(Debug, Clone, PartialEq, Eq, Hash)]
pub enum InputError {
    /// The events were rejected while being injected.
    Simulate(&'static str),
    /// The events could not even be described to the platform.
    InvalidInput(&'static str),
}

} // verus!

//! Button routing and the keybinding resolver.
//!
//! A button-plane message resolves to a simulator callback name: ICP
//! presses through the fixed panel map, OSB presses by synthesizing
//! `SimCBE<osb><L|R>`. The resolver looks the name up in the current
//! keybinding table and yields the keystroke plan to emit; releases,
//! unknown buttons and unknown names yield nothing.

use vstd::prelude::*;
use vstd::string::StringExecFns;
use crate::keyboard_emulator::{Callback, CallbackModel, InputStep, spec_invoke, invoke};
use crate::msgpack::{Message, MessageModel, opt_str_view, str_eq};

verus! {

/// The callback name of an ICP button, per the fixed panel map; any
/// other button name is unknown.
pub open spec fn spec_icp_callback_name(button: Seq<char>) -> Option<Seq<char>> {
    if button == "1"@ {
        Some("SimICPTILS"@)
    } else if button == "2"@ {
        Some("SimICPALOW"@)
    } else if button == "3"@ {
        Some("SimICPTHREE"@)
    } else if button == "4"@ {
        Some("SimICPStpt"@)
    } else if button == "5"@ {
        Some("SimICPCrus"@)
    } else if button == "6"@ {
        Some("SimICPSIX"@)
    } else if button == "7"@ {
        Some("SimICPMark"@)
    } else if button == "8"@ {
        Some("SimICPEIGHT"@)
    } else if button == "9"@ {
        Some("SimICPNINE"@)
    } else if button == "0"@ {
        Some("SimICPZERO"@)
    } else if button == "RCL"@ {
        Some("SimICPCLEAR"@)
    } else if button == "ENTER"@ {
        Some("SimICPEnter"@)
    } else if button == "COM1"@ {
        Some("SimICPCom1"@)
    } else if button == "COM2"@ {
        Some("SimICPCom2"@)
    } else if button == "IFF"@ {
        Some("SimICPIFF"@)
    } else if button == "LIST"@ {
        Some("SimICPLIST"@)
    } else if button == "A-A"@ {
        Some("SimICPAA"@)
    } else if button == "A-G"@ {
        Some("SimICPAG"@)
    } else if button == "icp-wpt-next"@ {
        Some("SimICPNext"@)
    } else if button == "icp-wpt-previous"@ {
        Some("SimICPPrevious"@)
    } else if button == "icp-ded-up"@ {
        Some("SimICPDEDUP"@)
    } else if button == "icp-ded-down"@ {
        Some("SimICPDEDDOWN"@)
    } else if button == "icp-ded-seq"@ {
        Some("SimICPDEDSEQ"@)
    } else if button == "icp-ded-return"@ {
        Some("SimICPResetDED"@)
    } else {
        None
    }
}

/// The callback name of an ICP button.
pub fn icp_callback_name(button: &str) -> (r: Option<String>)
    ensures
        opt_str_view(r) == spec_icp_callback_name(button@),
{
    if str_eq(button, "1") {
        Some("SimICPTILS".to_owned())
    } else if str_eq(button, "2") {
        Some("SimICPALOW".to_owned())
    } else if str_eq(button, "3") {
        Some("SimICPTHREE".to_owned())
    } else if str_eq(button, "4") {
        Some("SimICPStpt".to_owned())
    } else if str_eq(button, "5") {
        Some("SimICPCrus".to_owned())
    } else if str_eq(button, "6") {
        Some("SimICPSIX".to_owned())
    } else if str_eq(button, "7") {
        Some("SimICPMark".to_owned())
    } else if str_eq(button, "8") {
        Some("SimICPEIGHT".to_owned())
    } else if str_eq(button, "9") {
        Some("SimICPNINE".to_owned())
    } else if str_eq(button, "0") {
        Some("SimICPZERO".to_owned())
    } else if str_eq(button, "RCL") {
        Some("SimICPCLEAR".to_owned())
    } else if str_eq(button, "ENTER") {
        Some("SimICPEnter".to_owned())
    } else if str_eq(button, "COM1") {
        Some("SimICPCom1".to_owned())
    } else if str_eq(button, "COM2") {
        Some("SimICPCom2".to_owned())
    } else if str_eq(button, "IFF") {
        Some("SimICPIFF".to_owned())
    } else if str_eq(button, "LIST") {
        Some("SimICPLIST".to_owned())
    } else if str_eq(button, "A-A") {
        Some("SimICPAA".to_owned())
    } else if str_eq(button, "A-G") {
        Some("SimICPAG".to_owned())
    } else if str_eq(button, "icp-wpt-next") {
        Some("SimICPNext".to_owned())
    } else if str_eq(button, "icp-wpt-previous") {
        Some("SimICPPrevious".to_owned())
    } else if str_eq(button, "icp-ded-up") {
        Some("SimICPDEDUP".to_owned())
    } else if str_eq(button, "icp-ded-down") {
        Some("SimICPDEDDOWN".to_owned())
    } else if str_eq(button, "icp-ded-seq") {
        Some("SimICPDEDSEQ".to_owned())
    } else if str_eq(button, "icp-ded-return") {
        Some("SimICPResetDED".to_owned())
    } else {
        None
    }
}

/// The callback name an OSB press resolves to: `SimCBE`, then the OSB
/// number, then `L` or `R` by display; an unknown display resolves to
/// nothing.
pub open spec fn spec_osb_callback_name(mfd: Seq<char>, osb: Seq<char>) -> Option<Seq<char>> {
    if mfd == "f16/left-mfd"@ {
        Some("SimCBE"@ + osb + "L"@)
    } else if mfd == "f16/right-mfd"@ {
        Some("SimCBE"@ + osb + "R"@)
    } else {
        None
    }
}

/// The callback name an OSB press resolves to.
pub fn osb_callback_name(mfd: &str, osb: &str) -> (r: Option<String>)
    ensures
        opt_str_view(r) == spec_osb_callback_name(mfd@, osb@),
{
    if str_eq(mfd, "f16/left-mfd") {
        let mut name = "SimCBE".to_owned();
        name.append(osb);
        name.append("L");
        Some(name)
    } else if str_eq(mfd, "f16/right-mfd") {
        let mut name = "SimCBE".to_owned();
        name.append(osb);
        name.append("R");
        Some(name)
    } else {
        None
    }
}

/// Which callback a button-plane message asks for: ICP presses via
/// the panel map, OSB presses via name synthesis. Releases are
/// intentionally ignored, and no other message invokes a callback.
pub open spec fn spec_button_callback(m: MessageModel) -> Option<Seq<char>> {
    match m {
        MessageModel::IcpButtonPressed { button, .. } => spec_icp_callback_name(button),
        MessageModel::OsbButtonPressed { mfd, osb } => spec_osb_callback_name(mfd, osb),
        _ => None,
    }
}

/// Which callback a button-plane message asks for.
pub fn button_callback(m: &Message) -> (r: Option<String>)
    ensures
        opt_str_view(r) == spec_button_callback(m@),
{
    match m {
        Message::IcpButtonPressed { icp: _, button } => icp_callback_name(button.as_str()),
        Message::OsbButtonPressed { mfd, osb } => osb_callback_name(mfd.as_str(), osb.as_str()),
        _ => None,
    }
}

/// One named keybinding.
pub struct KeyBinding {
    pub name: String,
    pub callback: Callback,
}

/// The immutable keybinding table: names to callbacks, replaced
/// wholesale on hot-reload. A lookup takes the first entry with the
/// name.
pub struct KeybindingTable {
    entries: Vec<KeyBinding>,
}

impl View for KeybindingTable {
    type V = Seq<(Seq<char>, CallbackModel)>;

    closed spec fn view(&self) -> Seq<(Seq<char>, CallbackModel)> {
        self.entries@.map_values(|b: KeyBinding| (b.name@, b.callback@))
    }
}

/// The first callback bound under `name`, if any.
pub open spec fn spec_lookup(t: Seq<(Seq<char>, CallbackModel)>, name: Seq<char>) -> Option<
    CallbackModel,
>
    decreases t.len(),
{
    if t.len() == 0 {
        None
    } else if t[0].0 == name {
        Some(t[0].1)
    } else {
        spec_lookup(t.drop_first(), name)
    }
}

impl KeybindingTable {
    /// A table of exactly these bindings.
    pub fn new(entries: Vec<KeyBinding>) -> (t: KeybindingTable)
        ensures
            t@ == entries@.map_values(|b: KeyBinding| (b.name@, b.callback@)),
    {
        KeybindingTable { entries }
    }

    /// The first callback bound under `name`, if any.
    pub fn lookup(&self, name: &str) -> (r: Option<&Callback>)
        ensures
            match r {
                Some(cb) => spec_lookup(self@, name@) == Some(cb@),
                None => spec_lookup(self@, name@) is None,
            },
    {
        let n = self.entries.len();
        proof {
            assert(self@.skip(0) =~= self@);
        }
        for i in 0..n
            invariant
                n == self.entries@.len(),
                n == self@.len(),
                spec_lookup(self@, name@) == spec_lookup(self@.skip(i as int), name@),
        {
            proof {
                assert(self@[i as int] == (self.entries@[i as int].name@,
                self.entries@[i as int].callback@));
                assert(self@.skip(i as int)[0] == self@[i as int]);
            }
            if str_eq(self.entries[i].name.as_str(), name) {
                return Some(&self.entries[i].callback);
            }
            proof {
                assert(self@.skip(i as int).drop_first() =~= self@.skip(i + 1));
            }
        }
        proof {
            assert(self@.skip(n as int) =~= Seq::<(Seq<char>, CallbackModel)>::empty());
        }
        None
    }
}

/// The resolver: what one button invocation requires of the platform.
/// With no table yet, or a name the table does not bind, nothing
/// happens. Otherwise the simulator window is to be focused, and the
/// plan is a 15 ms settle followed by the callback's exact keystroke
/// steps.
pub fn plan_invocation(table: Option<&KeybindingTable>, name: &str) -> (r: Option<Vec<InputStep>>)
    ensures
        match table {
            None => r is None,
            Some(t) => match spec_lookup(t@, name@) {
                Some(cb) => r matches Some(steps) && steps@ == seq![
                    InputStep::SleepMs { ms: 15 },
                ] + spec_invoke(cb),
                None => r is None,
            },
        },
{
    let t = match table {
        None => {
            return None;
        },
        Some(t) => t,
    };
    let cb = match t.lookup(name) {
        None => {
            return None;
        },
        Some(cb) => cb,
    };
    let mut out: Vec<InputStep> = Vec::new();
    out.push(InputStep::SleepMs { ms: 15 });
    let mut steps = invoke(cb);
    out.append(&mut steps);
    proof {
        assert(out@ =~= seq![InputStep::SleepMs { ms: 15 }] + spec_invoke(cb@));
    }
    Some(out)
}

} // verus!

//! Button routing and keystroke synthesis: the panel map, the OSB
//! name synthesis, and the exact emitted sequences.

use falcon_bms_control::callbacks::{
    button_callback, icp_callback_name, osb_callback_name, plan_invocation, KeyBinding,
    KeybindingTable,
};
use falcon_bms_control::keyboard_emulator::{invoke, to_key, Callback, InputStep, Modifier};
use falcon_bms_control::msgpack::Message;

fn no_combo(key_code: u16, modifiers: Vec<Modifier>) -> Callback {
    Callback {
        key_code,
        modifiers,
        extended: false,
        combo_key_code: 0,
        combo_modifiers: Vec::new(),
        combo_extended: false,
    }
}

#[test]
fn icp_map_is_the_panel_map() {
    assert_eq!(icp_callback_name("ENTER").as_deref(), Some("SimICPEnter"));
    assert_eq!(icp_callback_name("1").as_deref(), Some("SimICPTILS"));
    assert_eq!(icp_callback_name("0").as_deref(), Some("SimICPZERO"));
    assert_eq!(icp_callback_name("RCL").as_deref(), Some("SimICPCLEAR"));
    assert_eq!(icp_callback_name("A-A").as_deref(), Some("SimICPAA"));
    assert_eq!(icp_callback_name("A-G").as_deref(), Some("SimICPAG"));
    assert_eq!(icp_callback_name("icp-ded-return").as_deref(), Some("SimICPResetDED"));
    assert_eq!(icp_callback_name("icp-wpt-previous").as_deref(), Some("SimICPPrevious"));
    assert!(icp_callback_name("NOPE").is_none());
}

#[test]
fn osb_names_are_synthesized_by_display() {
    assert_eq!(osb_callback_name("f16/left-mfd", "05").as_deref(), Some("SimCBE05L"));
    assert_eq!(osb_callback_name("f16/right-mfd", "05").as_deref(), Some("SimCBE05R"));
    assert_eq!(osb_callback_name("f16/right-mfd", "19").as_deref(), Some("SimCBE19R"));
    assert!(osb_callback_name("f16/center-mfd", "05").is_none());
}

#[test]
fn releases_and_other_messages_invoke_nothing() {
    let released = Message::IcpButtonReleased { icp: None, button: "ENTER".to_owned() };
    assert!(button_callback(&released).is_none());
    let osb_released =
        Message::OsbButtonReleased { mfd: "f16/left-mfd".to_owned(), osb: "01".to_owned() };
    assert!(button_callback(&osb_released).is_none());
    assert!(button_callback(&Message::Hello).is_none());
    assert!(button_callback(&Message::Unknown).is_none());
}

#[test]
fn modifier_scancodes_are_fixed() {
    assert_eq!(to_key(&Modifier::LShift), 0x2a);
    assert_eq!(to_key(&Modifier::LControl), 0x1d);
    assert_eq!(to_key(&Modifier::LAlt), 0x38);
}

#[test]
fn shifted_enter_emits_the_exact_sequence() {
    // A stub binding of SimICPEnter to shift+0x1C, as a control surface
    // pressing ENTER would reach it.
    let pressed = Message::IcpButtonPressed { icp: Some("any".to_owned()), button: "ENTER".to_owned() };
    let name = button_callback(&pressed).expect("ENTER resolves to a callback");
    assert_eq!(name, "SimICPEnter");
    let table = KeybindingTable::new(vec![KeyBinding {
        name: "SimICPEnter".to_owned(),
        callback: no_combo(0x1c, vec![Modifier::LShift]),
    }]);
    let steps = plan_invocation(Some(&table), &name).expect("the bound name yields a plan");
    assert_eq!(
        steps,
        vec![
            InputStep::SleepMs { ms: 15 },
            InputStep::Press { scan: 0x2a, extended: false },
            InputStep::SleepMs { ms: 10 },
            InputStep::Press { scan: 0x1c, extended: false },
            InputStep::Release { scan: 0x1c, extended: false },
            InputStep::Release { scan: 0x2a, extended: false },
        ],
    );
}

#[test]
fn combo_comes_first_with_its_pauses() {
    let callback = Callback {
        key_code: 0x1c,
        modifiers: vec![Modifier::LShift],
        extended: false,
        combo_key_code: 0x3b,
        combo_modifiers: vec![Modifier::LControl, Modifier::LAlt],
        combo_extended: false,
    };
    let steps = invoke(&callback);
    assert_eq!(
        steps,
        vec![
            // The combo chord: modifiers down in order, pause, click,
            // modifiers up in reverse order.
            InputStep::Press { scan: 0x1d, extended: false },
            InputStep::Press { scan: 0x38, extended: false },
            InputStep::SleepMs { ms: 10 },
            InputStep::Press { scan: 0x3b, extended: false },
            InputStep::Release { scan: 0x3b, extended: false },
            InputStep::Release { scan: 0x38, extended: false },
            InputStep::Release { scan: 0x1d, extended: false },
            // The pause between the chords, then the primary.
            InputStep::SleepMs { ms: 30 },
            InputStep::Press { scan: 0x2a, extended: false },
            InputStep::SleepMs { ms: 10 },
            InputStep::Press { scan: 0x1c, extended: false },
            InputStep::Release { scan: 0x1c, extended: false },
            InputStep::Release { scan: 0x2a, extended: false },
        ],
    );
}

#[test]
fn extended_key_carries_the_flag() {
    let steps = invoke(&Callback {
        key_code: 0x1c,
        modifiers: Vec::new(),
        extended: true,
        combo_key_code: 0,
        combo_modifiers: Vec::new(),
        combo_extended: false,
    });
    assert_eq!(
        steps,
        vec![
            InputStep::SleepMs { ms: 10 },
            InputStep::Press { scan: 0x1c, extended: true },
            InputStep::Release { scan: 0x1c, extended: true },
        ],
    );
}

#[test]
fn unknown_names_and_missing_tables_yield_no_plan() {
    let table = KeybindingTable::new(vec![KeyBinding {
        name: "SimICPEnter".to_owned(),
        callback: no_combo(0x1c, Vec::new()),
    }]);
    assert!(plan_invocation(Some(&table), "SimCBE05L").is_none());
    assert!(plan_invocation(None, "SimICPEnter").is_none());
}

#[test]
fn lookup_takes_the_first_binding_of_a_name() {
    let table = KeybindingTable::new(vec![
        KeyBinding { name: "SimICPEnter".to_owned(), callback: no_combo(0x1c, Vec::new()) },
        KeyBinding { name: "SimICPEnter".to_owned(), callback: no_combo(0x9c, Vec::new()) },
    ]);
    let cb = table.lookup("SimICPEnter").expect("the name is bound");
    assert_eq!(cb.key_code, 0x1c);
}

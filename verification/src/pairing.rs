//! Pairing a browser, and the words of the dialogs that goes through.

use vstd::prelude::*;
use crate::at;
use crate::at::add_decimal;
use crate::text::same;

verus! {

/// One thing to be done before a browser can be paired.
#[derive(Debug, Clone, Copy, PartialEq, Eq, Structural)]
pub enum BridgeStep {
    /// Turn the bridge on, in the config too.
    TurnOn,
    /// Have it listen.
    Start,
}

/// What has to be done before a browser can be paired. Pairing needs a socket,
/// and nobody is asked to edit the config by hand to reach it.
pub open spec fn before_pairing(listening: bool, enabled: bool) -> Seq<BridgeStep> {
    if listening {
        Seq::empty()
    } else if enabled {
        seq![BridgeStep::Start]
    } else {
        seq![BridgeStep::TurnOn, BridgeStep::Start]
    }
}

pub fn pair_steps(listening: bool, enabled: bool) -> (steps: Vec<BridgeStep>)
    ensures
        steps@ == before_pairing(listening, enabled),
{
    let mut steps: Vec<BridgeStep> = Vec::new();
    if !listening {
        if !enabled {
            steps.push(BridgeStep::TurnOn);
        }
        steps.push(BridgeStep::Start);
    }
    assert(steps@ =~= before_pairing(listening, enabled));
    steps
}

/// One dialog.
pub struct Said {
    pub caption: &'static str,
    pub text: String,
}

/// What is said with the port taken by something else. Handing out a code in
/// that state would be handing it to whatever answered.
pub open spec fn port_taken_words(port: nat) -> Seq<char> {
    "Another process is using port "@ + at::decimal(port)
        + ", so BentoLaunch's browser bridge is not listening.\n\nClose whatever is using it, or set a different browser.port in bentolaunch.toml, then try again."@
}

/// What is said with a code to type. A code is read in threes.
pub open spec fn code_words(code: Seq<char>) -> Seq<char> {
    "Pairing code:  "@ + code.subrange(0, 3) + "  "@ + code.subrange(3, code.len() as int)
        + "\n\nOpen the BentoLaunch extension's options page, choose \"Pair with BentoLaunch\", and type this code.\n\nPairing stays open until you close this window."@
}

/// What is said when a browser is to be paired: the caption and the words.
/// `code` is the code that was made; none is made while the bridge is not
/// listening.
pub open spec fn pairing_words(
    listening: bool,
    port: nat,
    code: Option<Seq<char>>,
) -> (Seq<char>, Seq<char>) {
    if !listening {
        ("Cannot pair right now"@, port_taken_words(port))
    } else {
        match code {
            None => ("Cannot pair right now"@, "Could not generate a pairing code."@),
            Some(code) => ("Pair a browser"@, code_words(code)),
        }
    }
}

/// What is said when a browser is to be paired.
pub fn pair_said(listening: bool, port: u16, code: Option<&str>) -> (said: Said)
    requires
        code matches Some(code) ==> code@.len() >= 3,
    ensures
        (said.caption@, said.text@) == pairing_words(
            listening,
            port as nat,
            match code {
                Some(code) => Some(code@),
                None => None,
            },
        ),
{
    if !listening {
        let mut text = "Another process is using port ".to_owned();
        add_decimal(&mut text, port as usize);
        text.append(
            ", so BentoLaunch's browser bridge is not listening.\n\nClose whatever is using it, or set a different browser.port in bentolaunch.toml, then try again.",
        );
        return Said { caption: "Cannot pair right now", text };
    }
    match code {
        None => Said {
            caption: "Cannot pair right now",
            text: "Could not generate a pairing code.".to_owned(),
        },
        Some(code) => {
            let mut text = "Pairing code:  ".to_owned();
            text.append(code.substring_char(0, 3));
            text.append("  ");
            text.append(code.substring_char(3, code.unicode_len()));
            text.append(
                "\n\nOpen the BentoLaunch extension's options page, choose \"Pair with BentoLaunch\", and type this code.\n\nPairing stays open until you close this window.",
            );
            Said { caption: "Pair a browser", text }
        },
    }
}

/// What is said once a browser is forgotten.
pub fn forgotten_said(name: &str) -> (said: Said)
    ensures
        said.caption@ == "Browser forgotten"@,
        said.text@ == name@
            + " is no longer paired. Its tabs disappear as soon as it reconnects and is turned away."@,
{
    let mut text = name.to_owned();
    text.append(
        " is no longer paired. Its tabs disappear as soon as it reconnects and is turned away.",
    );
    Said { caption: "Browser forgotten", text }
}

/// What the file manager is asked to show one file with: reveal and select it
/// rather than open it.
pub fn select_arguments(source: &str) -> (arguments: String)
    ensures
        arguments@ == "/select,\""@ + source@ + "\""@,
{
    let mut arguments = "/select,\"".to_owned();
    arguments.append(source);
    arguments.append("\"");
    arguments
}

/// What becomes of the hotkey when the config is read again.
#[derive(Debug, Clone, Copy, PartialEq, Eq, Structural)]
pub enum Rebind {
    Keep,
    /// Nothing was bound, so there is nothing to let go of.
    Bind,
    Swap,
}

/// What becomes of a hotkey that was one thing and is another.
pub open spec fn rebinding(before: Seq<char>, after: Seq<char>, bound: bool) -> Rebind {
    if before == after {
        Rebind::Keep
    } else if bound {
        Rebind::Swap
    } else {
        Rebind::Bind
    }
}

/// Only another hotkey needs binding again; everything else is read fresh.
pub fn rebind(before: &str, after: &str, bound: bool) -> (what: Rebind)
    ensures
        what == rebinding(before@, after@, bound),
{
    if same(before, after) {
        Rebind::Keep
    } else if bound {
        Rebind::Swap
    } else {
        Rebind::Bind
    }
}

} // verus!

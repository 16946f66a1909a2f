//! What the choices made at start-up mean: the recognition mode, the
//! trigger, and whether a credential has to be asked for.

use crate::ocr::OcrMode;
use crate::text::{chars_of, decimal, push_decimal, starts_with, string_of, trim, trimmed};
use vstd::prelude::*;
use vstd::string::*;

verus! {

/// Why an entered credential is refused.
#[derive(Clone, Copy, Debug, PartialEq, Eq, Structural)]
pub enum KeyError {
    /// Nothing but white space was entered.
    Empty,
    /// The entry does not begin with `sk-`.
    WrongPrefix,
}

/// What is wrong with an entered credential, if anything.
pub open spec fn key_fault(input: Seq<char>) -> Option<KeyError> {
    if trim(input).len() == 0 {
        Some(KeyError::Empty)
    } else if !"sk-"@.is_prefix_of(input) {
        Some(KeyError::WrongPrefix)
    } else {
        None
    }
}

/// The words for a refused credential.
pub open spec fn key_error_text(error: KeyError) -> Seq<char> {
    match error {
        KeyError::Empty => "API key cannot be empty"@,
        KeyError::WrongPrefix => "API key should start with 'sk-'"@,
    }
}

/// The mode that a command-line value names.
pub open spec fn named_mode(name: Seq<char>) -> Option<OcrMode> {
    if name == "llm"@ {
        Some(OcrMode::Llm)
    } else if name == "native"@ {
        Some(OcrMode::Native)
    } else {
        None
    }
}

/// The mode behind an entry of the mode menu: the second entry is the
/// vision model, every other the template matcher.
pub open spec fn menu_mode(selection: usize) -> OcrMode {
    if selection == 1 {
        OcrMode::Llm
    } else {
        OcrMode::Native
    }
}

/// The second entry of the mode menu.
pub open spec fn llm_entry_text(llm_available: bool) -> Seq<char> {
    if llm_available {
        "LLM (GPT-4o Mini) - accurate, requires API key"@
    } else {
        "LLM (GPT-4o Mini) - OPENAI_API_KEY not set"@
    }
}

/// How the trigger is shown.
pub open spec fn trigger_text(manual: bool, interval_ms: u64) -> Seq<char> {
    if manual {
        "manual (press Enter)"@
    } else {
        "auto ("@ + decimal(interval_ms as nat) + "ms)"@
    }
}

impl KeyError {
    /// The words for this error.
    pub fn message(&self) -> (text: &'static str)
        ensures
            text@ == key_error_text(*self),
    {
        match self {
            KeyError::Empty => "API key cannot be empty",
            KeyError::WrongPrefix => "API key should start with 'sk-'",
        }
    }
}

/// Checks an entered credential: it must hold more than white space and
/// begin with `sk-`.
pub fn check_api_key(input: &str) -> (checked: Result<(), KeyError>)
    ensures
        match checked {
            Ok(_) => key_fault(input@) is None,
            Err(error) => key_fault(input@) == Some(error),
        },
{
    let chars = chars_of(input);
    if trimmed(&chars).len() == 0 {
        return Err(KeyError::Empty);
    }
    let prefix = chars_of("sk-");
    if !starts_with(&chars, &prefix) {
        return Err(KeyError::WrongPrefix);
    }
    Ok(())
}

/// The credential that is kept of an entry: the entry without white space
/// around it.
pub fn stored_api_key(input: &str) -> (key: String)
    ensures
        key@ == trim(input@),
{
    let chars = chars_of(input);
    string_of(&trimmed(&chars))
}

/// The mode that a command-line value names: `llm` or `native`.
pub fn mode_from_flag(name: &str) -> (mode: Option<OcrMode>)
    ensures
        mode == named_mode(name@),
{
    let chars = chars_of(name);
    let llm = chars_of("llm");
    let native = chars_of("native");
    if chars.len() == llm.len() && starts_with(&chars, &llm) {
        assert(chars@ =~= llm@);
        Some(OcrMode::Llm)
    } else if chars.len() == native.len() && starts_with(&chars, &native) {
        assert(chars@ =~= native@);
        Some(OcrMode::Native)
    } else {
        None
    }
}

/// The mode behind an entry of the mode menu.
pub fn mode_for_selection(selection: usize) -> (mode: OcrMode)
    ensures
        mode == menu_mode(selection),
{
    if selection == 1 {
        OcrMode::Llm
    } else {
        OcrMode::Native
    }
}

/// The entries of the mode menu; the second says whether a credential is
/// at hand.
pub fn mode_menu(llm_available: bool) -> (entries: Vec<String>)
    ensures
        entries@.len() == 2,
        entries@[0]@ == "Native (template matching) - fast, requires templates/"@,
        entries@[1]@ == llm_entry_text(llm_available),
{
    let mut entries: Vec<String> = Vec::new();
    entries.push("Native (template matching) - fast, requires templates/".to_string());
    if llm_available {
        entries.push("LLM (GPT-4o Mini) - accurate, requires API key".to_string());
    } else {
        entries.push("LLM (GPT-4o Mini) - OPENAI_API_KEY not set".to_string());
    }
    entries
}

/// Whether a credential has to be asked for before the mode can be used:
/// only the vision model needs one, and only while none is at hand.
pub fn needs_api_key(mode: OcrMode, llm_available: bool) -> (needed: bool)
    ensures
        needed == (mode == OcrMode::Llm && !llm_available),
{
    match mode {
        OcrMode::Llm => !llm_available,
        OcrMode::Native => false,
    }
}

/// The entries of the trigger menu.
pub fn trigger_menu() -> (entries: Vec<String>)
    ensures
        entries@.len() == 2,
        entries@[0]@ == "Auto (continuous) - captures at regular intervals"@,
        entries@[1]@ == "Manual (on-demand) - press Enter to capture"@,
{
    let mut entries: Vec<String> = Vec::new();
    entries.push("Auto (continuous) - captures at regular intervals".to_string());
    entries.push("Manual (on-demand) - press Enter to capture".to_string());
    entries
}

/// Whether an entry of the trigger menu means capturing on demand: the
/// second does.
pub fn manual_for_selection(selection: usize) -> (manual: bool)
    ensures
        manual == (selection == 1),
{
    selection == 1
}

/// Whether a command-line value asks for capturing on demand.
pub fn manual_from_flag(name: &str) -> (manual: bool)
    ensures
        manual == (name@ == "manual"@),
{
    let chars = chars_of(name);
    let manual = chars_of("manual");
    let same = chars.len() == manual.len() && starts_with(&chars, &manual);
    proof {
        if same {
            assert(chars@ =~= manual@);
        }
    }
    same
}

/// How the trigger is shown at start-up.
pub fn trigger_display(manual: bool, interval_ms: u64) -> (text: String)
    ensures
        text@ == trigger_text(manual, interval_ms),
{
    if manual {
        "manual (press Enter)".to_string()
    } else {
        let mut text = "auto (".to_string();
        push_decimal(&mut text, interval_ms);
        text.append("ms)");
        text
    }
}

} // verus!

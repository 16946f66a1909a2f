use zugzwang::ocr::{llm_available, OcrMode};
use zugzwang::setup::{
    check_api_key, manual_for_selection, manual_from_flag, mode_for_selection, mode_from_flag,
    mode_menu, needs_api_key, stored_api_key, trigger_display, trigger_menu, KeyError,
};
use zugzwang::vision::has_api_key;

#[test]
fn test_ocr_mode_display() {
    assert_eq!(OcrMode::Llm.label(), "LLM (GPT-4o Mini)");
    assert_eq!(OcrMode::Native.label(), "Native (template matching)");
}

#[test]
fn test_ocr_mode_default() {
    assert_eq!(OcrMode::default(), OcrMode::Native);
}

#[test]
fn test_has_api_key_without_key() {
    assert!(!has_api_key(&None));
    assert!(has_api_key(&Some(String::from("sk-test"))));
}

#[test]
fn llm_is_available_exactly_with_a_credential() {
    assert!(!llm_available(&None));
    assert!(llm_available(&Some(String::from("sk-anything"))));
    assert!(llm_available(&Some(String::new())));
}

#[test]
fn api_key_must_not_be_blank() {
    assert_eq!(check_api_key(""), Err(KeyError::Empty));
    assert_eq!(check_api_key("   \t"), Err(KeyError::Empty));
    assert_eq!(KeyError::Empty.message(), "API key cannot be empty");
}

#[test]
fn api_key_must_start_with_sk() {
    assert_eq!(check_api_key("pk-123"), Err(KeyError::WrongPrefix));
    assert_eq!(check_api_key(" sk-123"), Err(KeyError::WrongPrefix));
    assert_eq!(KeyError::WrongPrefix.message(), "API key should start with 'sk-'");
    assert_eq!(check_api_key("sk-123"), Ok(()));
    assert_eq!(check_api_key("sk-123  "), Ok(()));
}

#[test]
fn stored_api_key_is_trimmed() {
    assert_eq!(stored_api_key("sk-123 \n"), "sk-123");
    assert_eq!(stored_api_key("sk-1 2"), "sk-1 2");
}

#[test]
fn mode_flag_names_a_mode() {
    assert_eq!(mode_from_flag("llm"), Some(OcrMode::Llm));
    assert_eq!(mode_from_flag("native"), Some(OcrMode::Native));
    assert_eq!(mode_from_flag("LLM"), None);
    assert_eq!(mode_from_flag("nativ"), None);
    assert_eq!(mode_from_flag("natives"), None);
    assert_eq!(mode_from_flag(""), None);
}

#[test]
fn second_menu_entry_is_the_vision_model() {
    assert_eq!(mode_for_selection(0), OcrMode::Native);
    assert_eq!(mode_for_selection(1), OcrMode::Llm);
    assert_eq!(mode_for_selection(2), OcrMode::Native);
    assert_eq!(mode_for_selection(usize::MAX), OcrMode::Native);
}

#[test]
fn mode_menu_tells_whether_a_key_is_set() {
    assert_eq!(
        mode_menu(true),
        vec![
            "Native (template matching) - fast, requires templates/",
            "LLM (GPT-4o Mini) - accurate, requires API key",
        ]
    );
    assert_eq!(
        mode_menu(false),
        vec![
            "Native (template matching) - fast, requires templates/",
            "LLM (GPT-4o Mini) - OPENAI_API_KEY not set",
        ]
    );
}

#[test]
fn only_the_vision_model_needs_a_key() {
    assert!(needs_api_key(OcrMode::Llm, false));
    assert!(!needs_api_key(OcrMode::Llm, true));
    assert!(!needs_api_key(OcrMode::Native, false));
    assert!(!needs_api_key(OcrMode::Native, true));
}

#[test]
fn trigger_menu_and_selection() {
    assert_eq!(
        trigger_menu(),
        vec![
            "Auto (continuous) - captures at regular intervals",
            "Manual (on-demand) - press Enter to capture",
        ]
    );
    assert!(!manual_for_selection(0));
    assert!(manual_for_selection(1));
    assert!(!manual_for_selection(2));
    assert!(manual_from_flag("manual"));
    assert!(!manual_from_flag("auto"));
    assert!(!manual_from_flag("manually"));
}

#[test]
fn trigger_display_shows_the_interval() {
    assert_eq!(trigger_display(true, 1000), "manual (press Enter)");
    assert_eq!(trigger_display(false, 1000), "auto (1000ms)");
    assert_eq!(trigger_display(false, 0), "auto (0ms)");
    assert_eq!(trigger_display(false, u64::MAX), "auto (18446744073709551615ms)");
}

use gac::session::{after_edit, dialog_choice, editor_command, resolve_api_key, DialogChoice, EditAbort};

#[test]
fn api_key_prefers_the_flag_and_refuses_empty_keys() {
    assert_eq!(resolve_api_key(Some("cli".into()), Some("stored".into())), Some("cli".to_string()));
    assert_eq!(resolve_api_key(None, Some("stored".into())), Some("stored".to_string()));
    assert_eq!(resolve_api_key(Some(String::new()), Some("stored".into())), None);
    assert_eq!(resolve_api_key(None, None), None);
}

#[test]
fn dialog_selection_meanings() {
    assert_eq!(dialog_choice(Some(0)), DialogChoice::Commit);
    assert_eq!(dialog_choice(Some(1)), DialogChoice::Edit);
    assert_eq!(dialog_choice(Some(2)), DialogChoice::Abort);
    assert_eq!(dialog_choice(None), DialogChoice::Abort);
}

#[test]
fn edits_are_trimmed_or_abort() {
    assert_eq!(after_edit(Some("  feat: x \n".into())), Ok("feat: x".to_string()));
    assert_eq!(after_edit(Some(" \n ".into())), Err(EditAbort::EmptyMessage));
    assert_eq!(after_edit(None), Err(EditAbort::NotSaved));
    assert_eq!(EditAbort::NotSaved.message(), "⚠️ Editor closed without saving. Aborting.");
    assert_eq!(EditAbort::EmptyMessage.message(), "⚠️ Empty message after edit. Aborting.");
}

#[test]
fn editor_fallbacks() {
    assert_eq!(editor_command(true, Some("vim".into()), None, None, false), "nvim");
    assert_eq!(editor_command(false, Some("vim".into()), Some("nano".into()), None, false), "vim");
    assert_eq!(editor_command(false, None, Some("nano".into()), Some("code".into()), false), "nano");
    assert_eq!(editor_command(false, None, None, Some("code".into()), false), "code");
    assert_eq!(editor_command(false, None, None, None, true), "start notepad.exe");
    assert_eq!(editor_command(false, None, None, None, false), "open -t");
}

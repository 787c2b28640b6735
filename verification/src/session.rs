//! Decisions of one run of the command line that sit between prompts and
//! outside programs: which API key is used, what the approval dialog's
//! answers mean, and which editor opens the message.
use vstd::prelude::*;
use crate::text::{chars_of, is_blank, lemma_trim_end_blank, lemma_trim_start_blank, string_from, trim, trim_start, trimmed};

verus! {

/// The text of an optional string.
pub open spec fn opt_view(o: Option<String>) -> Option<Seq<char>> {
    match o {
        Some(s) => Some(s@),
        None => None,
    }
}

/// The API key a run uses: the one given on the command line (or by
/// `GAC_API_KEY`), else the stored one; `None` when that key is missing or
/// empty, in which case the user is asked for one.
pub open spec fn chosen_api_key(flag: Option<Seq<char>>, stored: Option<Seq<char>>) -> Option<
    Seq<char>,
> {
    let k = match flag {
        Some(f) => Some(f),
        None => stored,
    };
    match k {
        Some(key) => if key.len() > 0 {
            Some(key)
        } else {
            None
        },
        None => None,
    }
}

/// Picks the API key from the command line or the configuration.
pub fn resolve_api_key(flag: Option<String>, stored: Option<String>) -> (r: Option<String>)
    ensures
        r matches Some(k) ==> chosen_api_key(opt_view(flag), opt_view(stored))
            == Some(k@),
        r is None ==> chosen_api_key(opt_view(flag), opt_view(stored)) is None,
{
    let k = match flag {
        Some(f) => Some(f),
        None => stored,
    };
    match k {
        Some(key) => if key.as_str().is_empty() {
            None
        } else {
            Some(key)
        },
        None => None,
    }
}

/// What the user picked in the approval dialog.
#[derive(Debug, Clone, Copy, PartialEq, Eq, Structural)]
pub enum DialogChoice {
    Commit,
    Edit,
    Abort,
}

/// The meaning of the dialog's selection: the first item commits, the
/// second edits, anything else (the third item, Esc or `q`) aborts.
pub fn dialog_choice(selection: Option<usize>) -> (r: DialogChoice)
    ensures
        r == match selection {
            Some(0) => DialogChoice::Commit,
            Some(1) => DialogChoice::Edit,
            _ => DialogChoice::Abort,
        },
{
    match selection {
        Some(0) => DialogChoice::Commit,
        Some(1) => DialogChoice::Edit,
        _ => DialogChoice::Abort,
    }
}

/// Why an edit ended the run without a commit.
#[derive(Debug, Clone, Copy, PartialEq, Eq, Structural)]
pub enum EditAbort {
    /// The saved message was blank.
    EmptyMessage,
    /// The editor was closed without saving.
    NotSaved,
}

impl EditAbort {
    pub fn message(&self) -> (r: &'static str)
        ensures
            r@ == match *self {
                EditAbort::EmptyMessage => "⚠️ Empty message after edit. Aborting."@,
                EditAbort::NotSaved => "⚠️ Editor closed without saving. Aborting."@,
            },
    {
        match self {
            EditAbort::EmptyMessage => "⚠️ Empty message after edit. Aborting.",
            EditAbort::NotSaved => "⚠️ Editor closed without saving. Aborting.",
        }
    }
}

/// The message an edit leaves, trimmed, or why there is none.
pub fn after_edit(edited: Option<String>) -> (r: Result<String, EditAbort>)
    ensures
        match edited {
            None => r == Err::<String, EditAbort>(EditAbort::NotSaved),
            Some(e) => if is_blank(e@) {
                r == Err::<String, EditAbort>(EditAbort::EmptyMessage)
            } else {
                r matches Ok(m) && m@ == trim(e@)
            },
        },
{
    match edited {
        None => Err(EditAbort::NotSaved),
        Some(e) => {
            let cs = chars_of(e.as_str());
            let t = trimmed(cs.as_slice());
            proof {
                lemma_trim_start_blank(e@);
                lemma_trim_end_blank(trim_start(e@));
                assert(is_blank(trim_start(e@)) <==> trim_start(e@).len() == 0) by {
                    lemma_trim_start_blank(trim_start(e@));
                }
            }
            if t.len() == 0 {
                Err(EditAbort::EmptyMessage)
            } else {
                Ok(string_from(t.as_slice()))
            }
        },
    }
}

/// The editor command: `nvim` when it is installed, else the first of
/// `GAC_EDITOR`, `EDITOR` and `VISUAL` that is set, else the system's
/// default text editor.
pub open spec fn editor_choice(
    nvim: bool,
    gac_editor: Option<Seq<char>>,
    editor: Option<Seq<char>>,
    visual: Option<Seq<char>>,
    windows: bool,
) -> Seq<char> {
    if nvim {
        "nvim"@
    } else if gac_editor is Some {
        gac_editor->0
    } else if editor is Some {
        editor->0
    } else if visual is Some {
        visual->0
    } else if windows {
        "start notepad.exe"@
    } else {
        "open -t"@
    }
}

/// Picks the editor that opens the message.
pub fn editor_command(
    nvim: bool,
    gac_editor: Option<String>,
    editor: Option<String>,
    visual: Option<String>,
    windows: bool,
) -> (r: String)
    ensures
        r@ == editor_choice(
            nvim,
            opt_view(gac_editor),
            opt_view(editor),
            opt_view(visual),
            windows,
        ),
{
    if nvim {
        let v = chars_of("nvim");
        return string_from(v.as_slice());
    }
    match gac_editor {
        Some(g) => g,
        None => match editor {
            Some(e) => e,
            None => match visual {
                Some(v) => v,
                None => {
                    let d = if windows {
                        chars_of("start notepad.exe")
                    } else {
                        chars_of("open -t")
                    };
                    string_from(d.as_slice())
                },
            },
        },
    }
}

} // verus!

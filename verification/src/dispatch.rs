//! The command dispatcher: a closed set of user commands mapped onto
//! session and persistence operations, one match in one handler.

use vstd::prelude::*;
use crate::parse::{p_cache, p_doc, parse_cache_log, parse_document};
use crate::ser::{ser_cache, ser_doc};
use crate::session::{
    PersistAction, SessionError, State, StateModel, spec_integrate, spec_mark, spec_previous,
    spec_replace, spec_skip, state_wf, target_names,
};

verus! {

/// A document handed in by the file-choosing collaborator: the resolved
/// path split into root folder and file name, the document text already
/// read, and the crash-log sibling's text when that file exists.
pub struct OpenedDocument {
    pub root_path: String,
    pub file_name: String,
    pub contents: String,
    pub crash_log: Option<String>,
}

/// The commands the dispatcher accepts.
pub enum Message {
    FocusLevelChange(usize),
    MarkFocus,
    NextImage,
    PreviousImage,
    UI(UIMessage),
    OpenFile(OpenedDocument),
    Quit,
}

/// Requests that touch only the rendering collaborator, never the session.
pub enum UIMessage {
    OpenFileChooser,
    RefreshImages,
    ToggleGrid,
    DecrementFocus,
    IncrementFocus,
    ShowGrid(bool),
}

/// The crash log a freshly opened document must reconcile: the sibling
/// file's entries when it exists, nothing when it does not.
pub open spec fn opened_log(doc: OpenedDocument) -> Option<Seq<(usize, usize)>> {
    match doc.crash_log {
        None => Some(Seq::<(usize, usize)>::empty()),
        Some(cl) => p_cache(cl@),
    }
}

/// The session after an open command succeeds: the parsed stacks with the
/// crash log replayed into them, cursors restarted, the backing file
/// recorded, the in-memory crash log empty.
pub open spec fn spec_open_outcome(
    m: StateModel,
    doc: OpenedDocument,
    d: Seq<crate::model::ZStackModel>,
    entries: Seq<(usize, usize)>,
) -> StateModel {
    StateModel {
        stacks: spec_integrate(d, entries),
        file_name: Some(doc.file_name@),
        root_path: Some(doc.root_path@),
        annotation_cache: Seq::<(usize, usize)>::empty(),
        ..spec_replace(m, d)
    }
}

impl State {
    /// Handles one command, mutating the session and returning the
    /// persistence actions the caller must now perform, in order.
    ///
    /// Navigation and cursor commands return no actions.  `MarkFocus`
    /// marks, asks for a crash-log write, then advances.  `Quit` asks for
    /// a full checkpoint and the crash log's deletion.  `OpenFile` first
    /// checkpoints the open document if there is one, then replaces the
    /// session with the new document, reconciles its crash-log sibling,
    /// and asks for that sibling's deletion; if either text fails to
    /// parse, the session is left exactly as it was and nothing is asked.
    pub fn update(&mut self, msg: Message) -> (r: Result<Vec<PersistAction>, SessionError>)
        requires
            old(self).wf(),
        ensures
            final(self).wf(),
            match msg {
                Message::NextImage => r matches Ok(v) && v@.len() == 0 && final(self)@ == spec_skip(
                    old(self)@,
                ),
                Message::PreviousImage => r matches Ok(v) && v@.len() == 0 && final(self)@
                    == spec_previous(old(self)@),
                Message::FocusLevelChange(lvl) => r matches Ok(v) && v@.len() == 0 && final(self)@
                    == (StateModel { focus_image_index: Some(lvl), ..old(self)@ }),
                Message::UI(_) => r matches Ok(v) && v@.len() == 0 && final(self)@ == old(self)@,
                Message::MarkFocus => final(self)@ == spec_skip(spec_mark(old(self)@)) && (if old(
                    self,
                )@.file_name is Some && old(self)@.root_path is Some {
                    r matches Ok(v) && v@.len() == 1 && (v@[0] matches
                        PersistAction::WriteCrashLog(t, text) && target_names(t, old(self)@)
                        && text@ == ser_cache(spec_mark(old(self)@).annotation_cache))
                } else {
                    r matches Err(e) && e == SessionError::NoBackingDocument
                }),
                Message::Quit => (if old(self)@.file_name is Some && old(self)@.root_path is Some {
                    r matches Ok(v) && v@.len() == 2 && (v@[0] matches
                        PersistAction::WriteDocument(t, text) && target_names(t, old(self)@)
                        && text@ == ser_doc(old(self)@.stacks)) && (v@[1] matches
                        PersistAction::DeleteCrashLog(t2) && target_names(t2, old(self)@))
                        && final(self)@ == (StateModel {
                        annotation_cache: Seq::<(usize, usize)>::empty(),
                        ..old(self)@
                    })
                } else {
                    r matches Err(e) && e == SessionError::NoBackingDocument && final(self)@ == old(
                        self,
                    )@
                }),
                Message::OpenFile(doc) => (match (p_doc(doc.contents@), opened_log(doc)) {
                    (Some(d), Some(entries)) => r matches Ok(v) && final(self)@
                        == spec_open_outcome(old(self)@, doc, d, entries) && (if old(
                        self,
                    )@.file_name is Some && old(self)@.root_path is Some {
                        v@.len() == 3 && (v@[0] matches PersistAction::WriteDocument(t, text)
                            && target_names(t, old(self)@) && text@ == ser_doc(old(self)@.stacks))
                            && (v@[1] matches PersistAction::DeleteCrashLog(t2)
                            && target_names(t2, old(self)@)) && (v@[2] matches
                            PersistAction::DeleteCrashLog(t3) && target_names(t3, final(self)@))
                    } else {
                        v@.len() == 1 && (v@[0] matches PersistAction::DeleteCrashLog(t3)
                            && target_names(t3, final(self)@))
                    }),
                    _ => r matches Err(e) && e == SessionError::ParseFailure && final(self)@ == old(
                        self,
                    )@,
                }),
            },
    {
        match msg {
            Message::NextImage => {
                self.skip();
                Ok(Vec::new())
            },
            Message::PreviousImage => {
                self.previous();
                Ok(Vec::new())
            },
            Message::FocusLevelChange(lvl) => {
                self.set_focus_image_index(Some(lvl));
                Ok(Vec::new())
            },
            Message::UI(_) => Ok(Vec::new()),
            Message::MarkFocus => {
                self.mark_focus();
                let saved = self.save_tmp();
                self.skip();
                match saved {
                    Ok(a) => {
                        let mut v: Vec<PersistAction> = Vec::new();
                        v.push(a);
                        Ok(v)
                    },
                    Err(e) => Err(e),
                }
            },
            Message::Quit => {
                let deletion = self.delete_tmp_file();
                match deletion {
                    Err(e) => Err(e),
                    Ok(del) => {
                        match self.save() {
                            Err(e) => Err(e),
                            Ok(written) => {
                                let mut v: Vec<PersistAction> = Vec::new();
                                v.push(written);
                                v.push(del);
                                proof {
                                    assert(v@[0] == written);
                                    assert(v@[1] == del);
                                }
                                Ok(v)
                            },
                        }
                    },
                }
            },
            Message::OpenFile(doc) => self.handle_open(doc),
        }
    }

    /// The open command's work: parse everything first, then checkpoint
    /// the old document, replace, reconcile, and ask for the new sibling's
    /// deletion.
    fn handle_open(&mut self, doc: OpenedDocument) -> (r: Result<
        Vec<PersistAction>,
        SessionError,
    >)
        requires
            old(self).wf(),
        ensures
            final(self).wf(),
            match (p_doc(doc.contents@), opened_log(doc)) {
                (Some(d), Some(entries)) => r matches Ok(v) && final(self)@ == spec_open_outcome(
                    old(self)@,
                    doc,
                    d,
                    entries,
                ) && (if old(self)@.file_name is Some && old(self)@.root_path is Some {
                    v@.len() == 3 && (v@[0] matches PersistAction::WriteDocument(t, text)
                        && target_names(t, old(self)@) && text@ == ser_doc(old(self)@.stacks))
                        && (v@[1] matches PersistAction::DeleteCrashLog(t2)
                        && target_names(t2, old(self)@)) && (v@[2] matches
                        PersistAction::DeleteCrashLog(t3) && target_names(t3, final(self)@))
                } else {
                    v@.len() == 1 && (v@[0] matches PersistAction::DeleteCrashLog(t3)
                        && target_names(t3, final(self)@))
                }),
                _ => r matches Err(e) && e == SessionError::ParseFailure && final(self)@ == old(
                    self,
                )@,
            },
    {
        let OpenedDocument { root_path, file_name, contents, crash_log } = doc;
        // Validate both texts up front: a failed open must leave the
        // session, and the disk, exactly as they were.
        match parse_document(contents.as_str()) {
            None => {
                return Err(SessionError::ParseFailure);
            },
            Some(_) => {},
        }
        match &crash_log {
            None => {},
            Some(cl) => match parse_cache_log(cl.as_str()) {
                None => {
                    return Err(SessionError::ParseFailure);
                },
                Some(_) => {},
            },
        }
        let mut actions: Vec<PersistAction> = Vec::new();
        let had_document = match (self.get_root_path(), self.get_file_name()) {
            (Some(_), Some(_)) => true,
            _ => false,
        };
        if had_document {
            let del = match self.delete_tmp_file() {
                Ok(a) => a,
                Err(e) => {
                    proof {
                        assert(false);
                    }
                    return Err(e);
                },
            };
            let written = match self.save() {
                Ok(a) => a,
                Err(e) => {
                    proof {
                        assert(false);
                    }
                    return Err(e);
                },
            };
            actions.push(written);
            actions.push(del);
        }
        match self.open(file_name, root_path, contents.as_str()) {
            Err(e) => {
                proof {
                    assert(false);
                }
                Err(e)
            },
            Ok(_) => {
                match &crash_log {
                    None => {
                        self.clear_annotation_cache();
                        proof {
                            let d = p_doc(contents@).unwrap();
                            assert(spec_integrate(d, Seq::<(usize, usize)>::empty()) == d);
                        }
                    },
                    Some(cl) => {
                        match self.integrate_tmp_file(cl.as_str()) {
                            Ok(_) => {},
                            Err(e) => {
                                proof {
                                    assert(false);
                                }
                                return Err(e);
                            },
                        }
                    },
                }
                let del_new = match self.delete_tmp_file() {
                    Ok(a) => a,
                    Err(e) => {
                        proof {
                            assert(false);
                        }
                        return Err(e);
                    },
                };
                let ghost before_push = actions@;
                actions.push(del_new);
                proof {
                    let d = p_doc(contents@).unwrap();
                    let entries = opened_log(doc).unwrap();
                    assert(actions@ == before_push.push(del_new));
                    if old(self)@.file_name is Some && old(self)@.root_path is Some {
                        assert(actions@.len() == 3);
                        assert(actions@[2] == del_new);
                    } else {
                        assert(actions@.len() == 1);
                        assert(actions@[0] == del_new);
                    }
                    assert(self@ =~= spec_open_outcome(old(self)@, doc, d, entries));
                }
                Ok(actions)
            },
        }
    }
}

} // verus!

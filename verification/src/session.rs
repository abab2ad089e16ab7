//! The session store: the ordered collection of z-stacks, the two cursors,
//! the backing-document identity and the in-memory crash log.

use vstd::prelude::*;
use crate::model::{
    AnnotationImage, AnnotationZStack, LightAnnotation, ImageModel, ZStackModel, cache_view,
    doc_wf, zstacks_view,
};
use crate::parse::{p_cache, p_doc, parse_cache_log, parse_document};
use crate::ser::{ser_cache, ser_doc, serialize_cache, serialize_document};

verus! {

/// What can go wrong in the session's persistence: the backing file could
/// not be read or written, its text is not a document, or there is no
/// backing document to save to.
#[derive(Clone, Copy, PartialEq, Eq, Structural, Debug)]
pub enum SessionError {
    IoFailure,
    ParseFailure,
    NoBackingDocument,
}

/// The file a persistence action is aimed at: the document itself, or its
/// crash-log sibling, named by the document's root folder and file name.
#[derive(Debug)]
pub struct PersistTarget {
    pub root_path: String,
    pub file_name: String,
}

/// One persistence side effect the session asks its caller to perform:
/// write the full document checkpoint, write the crash-log sibling, or
/// delete the crash-log sibling.
#[derive(Debug)]
pub enum PersistAction {
    WriteDocument(PersistTarget, String),
    WriteCrashLog(PersistTarget, String),
    DeleteCrashLog(PersistTarget),
}

/// The target names the session's backing document.
pub open spec fn target_names(t: PersistTarget, m: StateModel) -> bool {
    &&& m.root_path == Some(t.root_path@)
    &&& m.file_name == Some(t.file_name@)
}

/// Mathematical value of a [`State`]: everything its contracts speak of.
#[verifier::ext_equal]
pub struct StateModel {
    pub stacks: Seq<ZStackModel>,
    pub stack_index: Option<usize>,
    pub focus_image_index: Option<usize>,
    pub file_name: Option<Seq<char>>,
    pub root_path: Option<Seq<char>>,
    pub annotation_cache: Seq<(usize, usize)>,
}

/// The session invariant: the stack cursor stays inside the collection,
/// the two halves of the backing-document identity are set together, and
/// the stacks are well-formed.  The image cursor is deliberately free:
/// moving between stacks of different lengths can leave it past the end of
/// the new stack, and readers clamp.
pub open spec fn state_wf(m: StateModel) -> bool {
    &&& (m.stack_index matches Some(i) ==> (i as int) < m.stacks.len())
    &&& (m.file_name is Some <==> m.root_path is Some)
    &&& doc_wf(m.stacks)
}

/// Moving to the next stack: clears the cursor when the collection is
/// empty, saturates at the last stack, and never touches the image cursor.
pub open spec fn spec_skip(m: StateModel) -> StateModel {
    if m.stacks.len() == 0 {
        StateModel { stack_index: None, ..m }
    } else {
        match m.stack_index {
            Some(i) => if i + 1 < m.stacks.len() {
                StateModel { stack_index: Some((i + 1) as usize), ..m }
            } else {
                m
            },
            None => m,
        }
    }
}

/// Moving to the previous stack: clears the cursor when the collection is
/// empty, saturates at the first stack, and never touches the image cursor.
pub open spec fn spec_previous(m: StateModel) -> StateModel {
    if m.stacks.len() == 0 {
        StateModel { stack_index: None, ..m }
    } else {
        match m.stack_index {
            Some(i) => if i > 0 {
                StateModel { stack_index: Some((i - 1) as usize), ..m }
            } else {
                m
            },
            None => m,
        }
    }
}

/// Marking the focus: with both cursors set, the current stack's
/// `best_index` becomes the image cursor and one crash-log entry is
/// appended; with either cursor unset, nothing changes at all.
pub open spec fn spec_mark(m: StateModel) -> StateModel {
    match (m.stack_index, m.focus_image_index) {
        (Some(i), Some(f)) => if (i as int) < m.stacks.len() {
            StateModel {
                stacks: m.stacks.update(
                    i as int,
                    ZStackModel { best_index: Some(f), ..m.stacks[i as int] },
                ),
                annotation_cache: m.annotation_cache.push((i, f)),
                ..m
            }
        } else {
            m
        },
        _ => m,
    }
}

/// Replacing the collection wholesale: cursors restart at `(0, 0)` when
/// the first stack has an image, at `(0, unset)` when it has none, and
/// both clear when the new document is empty.
pub open spec fn spec_replace(m: StateModel, stacks: Seq<ZStackModel>) -> StateModel {
    StateModel {
        stacks: stacks,
        stack_index: if stacks.len() == 0 {
            None
        } else {
            Some(0usize)
        },
        focus_image_index: if stacks.len() == 0 {
            None
        } else if stacks[0].images.len() > 0 {
            Some(0usize)
        } else {
            None
        },
        ..m
    }
}

/// Replaying crash-log entries into a document, in order: each entry sets
/// `best_index` of the stack it names; entries naming no stack are
/// ignored.
pub open spec fn spec_integrate(stacks: Seq<ZStackModel>, entries: Seq<(usize, usize)>) -> Seq<
    ZStackModel,
>
    decreases entries.len(),
{
    if entries.len() == 0 {
        stacks
    } else {
        let e = entries[0];
        let stacks2 = if (e.0 as int) < stacks.len() {
            stacks.update(e.0 as int, ZStackModel { best_index: Some(e.1), ..stacks[e.0 as int] })
        } else {
            stacks
        };
        spec_integrate(stacks2, entries.drop_first())
    }
}

/// Law: with the collection nonempty, skipping at the last stack and
/// retreating at the first are no-ops, and neither operation ever clears a
/// set cursor; with the collection empty, both clear the cursor and change
/// nothing else.
pub proof fn lemma_navigation_saturates(m: StateModel)
    ensures
        m.stacks.len() == 0 ==> spec_skip(m) == (StateModel { stack_index: None, ..m }),
        m.stacks.len() == 0 ==> spec_previous(m) == (StateModel { stack_index: None, ..m }),
        m.stack_index matches Some(i) && i as int == m.stacks.len() - 1 ==> spec_skip(m) == m,
        m.stack_index matches Some(i) && i == 0 && m.stacks.len() > 0 ==> spec_previous(m) == m,
        m.stacks.len() > 0 ==> (spec_skip(m).stack_index is Some <==> m.stack_index is Some),
        m.stacks.len() > 0 ==> (spec_previous(m).stack_index is Some <==> m.stack_index is Some),
{
}

/// Law: marking with either cursor unset changes nothing: every
/// `best_index` keeps its value and the crash log receives no entry.
pub proof fn lemma_mark_needs_both_cursors(m: StateModel)
    requires
        m.stack_index is None || m.focus_image_index is None,
    ensures
        spec_mark(m) == m,
{
}

/// Law: replaying the crash log `[(0, 2), (1, 0)]` into a two-stack
/// checkpoint with no marks yields `best_index` 2 and 0, and is the very
/// document produced by making the same two marks through the session.
pub proof fn lemma_reconciliation_matches_replay(d0: Seq<ZStackModel>, m: StateModel)
    requires
        d0.len() == 2,
        d0[0].best_index is None,
        d0[1].best_index is None,
        m.stacks == d0,
        m.stack_index == Some(0usize),
        m.focus_image_index == Some(2usize),
    ensures
        ({
            let log = seq![(0usize, 2usize), (1usize, 0usize)];
            let replayed = spec_mark(
                StateModel {
                    stack_index: Some(1usize),
                    focus_image_index: Some(0usize),
                    ..spec_mark(m)
                },
            );
            &&& spec_integrate(d0, log)[0].best_index == Some(2usize)
            &&& spec_integrate(d0, log)[1].best_index == Some(0usize)
            &&& spec_integrate(d0, log) == replayed.stacks
        }),
{
    reveal_with_fuel(spec_integrate, 3);
    let log = seq![(0usize, 2usize), (1usize, 0usize)];
    assert(log[0] == (0usize, 2usize));
    assert(log[1] == (1usize, 0usize));
    assert(log.drop_first() =~= seq![(1usize, 0usize)]);
    assert(log.drop_first()[0] == (1usize, 0usize));
    assert(log.drop_first().drop_first() =~= Seq::<(usize, usize)>::empty());
    let d1 = d0.update(0, ZStackModel { best_index: Some(2usize), ..d0[0] });
    let d2 = d1.update(1, ZStackModel { best_index: Some(0usize), ..d1[1] });
    assert(spec_integrate(d0, log) == d2);
    let replayed = spec_mark(
        StateModel { stack_index: Some(1usize), focus_image_index: Some(0usize), ..spec_mark(m) },
    );
    assert(replayed.stacks == d2);
}

/// Law: a mark is one crash-log replay: with both cursors set, marking
/// changes the stacks exactly as replaying the entry it appends to the
/// log.
pub proof fn lemma_mark_matches_replay(m: StateModel)
    requires
        state_wf(m),
        m.stack_index is Some,
        m.focus_image_index is Some,
    ensures
        spec_mark(m).stacks == spec_integrate(
            m.stacks,
            seq![(m.stack_index.unwrap(), m.focus_image_index.unwrap())],
        ),
{
    let i = m.stack_index.unwrap();
    let f = m.focus_image_index.unwrap();
    let e = (i, f);
    let log = seq![e];
    assert(log[0] == e);
    assert(log.drop_first() =~= Seq::<(usize, usize)>::empty());
    let stacks2 = m.stacks.update(
        i as int,
        ZStackModel { best_index: Some(f), ..m.stacks[i as int] },
    );
    assert(spec_integrate(m.stacks, log) == spec_integrate(stacks2, log.drop_first()));
    assert(spec_integrate(stacks2, log.drop_first()) == stacks2);
}

/// Law: replaying a log grown by one entry is replaying the log and then
/// that entry: marks recorded one after the other reconcile in order.
pub proof fn lemma_integrate_append(
    stacks: Seq<ZStackModel>,
    entries: Seq<(usize, usize)>,
    e: (usize, usize),
)
    ensures
        spec_integrate(stacks, entries.push(e)) == spec_integrate(
            spec_integrate(stacks, entries),
            seq![e],
        ),
    decreases entries.len(),
{
    assert(seq![e][0] == e);
    assert(seq![e].drop_first() =~= Seq::<(usize, usize)>::empty());
    if entries.len() == 0 {
        assert(entries.push(e)[0] == e);
        assert(entries.push(e).drop_first() =~= Seq::<(usize, usize)>::empty());
    } else {
        assert(entries.push(e)[0] == entries[0]);
        assert(entries.push(e).drop_first() =~= entries.drop_first().push(e));
        let head = entries[0];
        let stacks2 = if (head.0 as int) < stacks.len() {
            stacks.update(
                head.0 as int,
                ZStackModel { best_index: Some(head.1), ..stacks[head.0 as int] },
            )
        } else {
            stacks
        };
        lemma_integrate_append(stacks2, entries.drop_first(), e);
    }
}

/// Law: reconciliation touches only marks: it never changes how many
/// stacks there are, nor any stack's images or unrecognized members.
pub proof fn lemma_integrate_touches_only_marks(
    stacks: Seq<ZStackModel>,
    entries: Seq<(usize, usize)>,
)
    ensures
        spec_integrate(stacks, entries).len() == stacks.len(),
        forall|k: int|
            0 <= k < stacks.len() ==> (#[trigger] spec_integrate(stacks, entries)[k]).images
                == stacks[k].images && spec_integrate(stacks, entries)[k].extra == stacks[k].extra,
    decreases entries.len(),
{
    if entries.len() > 0 {
        let head = entries[0];
        let stacks2 = if (head.0 as int) < stacks.len() {
            stacks.update(
                head.0 as int,
                ZStackModel { best_index: Some(head.1), ..stacks[head.0 as int] },
            )
        } else {
            stacks
        };
        lemma_integrate_touches_only_marks(stacks2, entries.drop_first());
    }
}

/// The session store.
pub struct State {
    stacks: Vec<AnnotationZStack>,
    stack_index: Option<usize>,
    focus_image_index: Option<usize>,
    file_name: Option<String>,
    root_path: Option<String>,
    annotation_cache: Vec<LightAnnotation>,
}

impl View for State {
    type V = StateModel;

    closed spec fn view(&self) -> StateModel {
        StateModel {
            stacks: zstacks_view(self.stacks@),
            stack_index: self.stack_index,
            focus_image_index: self.focus_image_index,
            file_name: self.file_name.deep_view(),
            root_path: self.root_path.deep_view(),
            annotation_cache: cache_view(self.annotation_cache@),
        }
    }
}

impl State {
    /// The session invariant, at the store itself.
    pub open spec fn wf(&self) -> bool {
        state_wf(self@)
    }

    /// A fresh session: no stacks, no cursors, no backing document, an
    /// empty crash log.
    pub fn new() -> (r: Self)
        ensures
            r@ == (StateModel {
                stacks: Seq::<ZStackModel>::empty(),
                stack_index: None::<usize>,
                focus_image_index: None::<usize>,
                file_name: None::<Seq<char>>,
                root_path: None::<Seq<char>>,
                annotation_cache: Seq::<(usize, usize)>::empty(),
            }),
            r.wf(),
    {
        let r = State {
            stacks: Vec::new(),
            stack_index: None,
            focus_image_index: None,
            file_name: None,
            root_path: None,
            annotation_cache: Vec::new(),
        };
        proof {
            assert(zstacks_view(r.stacks@) =~= Seq::<ZStackModel>::empty());
            assert(cache_view(r.annotation_cache@) =~= Seq::<(usize, usize)>::empty());
        }
        r
    }

    /// The image cursor.
    pub fn get_focus_image_index(&self) -> (r: Option<usize>)
        ensures
            r == self@.focus_image_index,
    {
        self.focus_image_index
    }

    /// The stack cursor.
    pub fn get_stack_index(&self) -> (r: Option<usize>)
        ensures
            r == self@.stack_index,
    {
        self.stack_index
    }

    /// The backing document's file name, if one is open.
    pub fn get_file_name(&self) -> (r: Option<&String>)
        ensures
            r.deep_view() == self@.file_name,
    {
        self.file_name.as_ref()
    }

    /// The backing document's root folder, if one is open.
    pub fn get_root_path(&self) -> (r: Option<&String>)
        ensures
            r.deep_view() == self@.root_path,
    {
        self.root_path.as_ref()
    }

    /// How many stacks the session holds.
    pub fn stack_count(&self) -> (r: usize)
        ensures
            r == self@.stacks.len(),
    {
        self.stacks.len()
    }

    /// Sets the image cursor unconditionally; no bounds are enforced here,
    /// readers clamp.
    pub fn set_focus_image_index(&mut self, image_index: Option<usize>)
        requires
            old(self).wf(),
        ensures
            final(self)@ == (StateModel { focus_image_index: image_index, ..old(self)@ }),
            final(self).wf(),
    {
        self.focus_image_index = image_index;
    }

    /// The stack under the stack cursor, or nothing when the cursor is
    /// unset or out of range.
    pub fn get_current_focus_stack(&self) -> (r: Option<&AnnotationZStack>)
        ensures
            match self@.stack_index {
                Some(i) => if (i as int) < self@.stacks.len() {
                    r matches Some(z) && z@ == self@.stacks[i as int]
                } else {
                    r is None
                },
                None => r is None,
            },
    {
        match self.stack_index {
            Some(i) => if i < self.stacks.len() {
                Some(&self.stacks[i])
            } else {
                None
            },
            None => None,
        }
    }

    /// The image under both cursors, copied out, or nothing when either
    /// cursor is unset or out of range.
    pub fn get_current_annotation_image(&self) -> (r: Option<AnnotationImage>)
        ensures
            match (self@.stack_index, self@.focus_image_index) {
                (Some(i), Some(f)) => if (i as int) < self@.stacks.len() && (f as int) < self@
                    .stacks[i as int].images.len() {
                    r matches Some(img) && img@ == self@.stacks[i as int].images[f as int]
                } else {
                    r is None
                },
                _ => r is None,
            },
    {
        match (self.stack_index, self.focus_image_index) {
            (Some(i), Some(f)) => if i < self.stacks.len() && f < self.stacks[i].images.len() {
                Some(self.stacks[i].images[f].clone())
            } else {
                None
            },
            _ => None,
        }
    }

    /// The largest valid image index of the current stack, or nothing when
    /// no stack is current or the current stack has no images.
    pub fn get_current_foucs_stack_max(&self) -> (r: Option<usize>)
        ensures
            match self@.stack_index {
                Some(i) => if (i as int) < self@.stacks.len() && self@.stacks[i as int].images.len()
                    > 0 {
                    r == Some((self@.stacks[i as int].images.len() - 1) as usize)
                } else {
                    r is None
                },
                None => r is None,
            },
    {
        match self.stack_index {
            Some(i) => if i < self.stacks.len() && self.stacks[i].images.len() > 0 {
                Some(self.stacks[i].images.len() - 1)
            } else {
                None
            },
            None => None,
        }
    }

    /// The operator's focus choice in the current stack, if any.
    pub fn get_current_foucs_stack_best_index(&self) -> (r: Option<usize>)
        ensures
            match self@.stack_index {
                Some(i) => if (i as int) < self@.stacks.len() {
                    r == self@.stacks[i as int].best_index
                } else {
                    r is None
                },
                None => r is None,
            },
    {
        match self.stack_index {
            Some(i) => if i < self.stacks.len() {
                self.stacks[i].best_index
            } else {
                None
            },
            None => None,
        }
    }

    /// Replaces the whole collection and restarts the cursors.
    pub fn replace_foucs_stacks(&mut self, stacks: Vec<AnnotationZStack>)
        requires
            old(self).wf(),
            doc_wf(zstacks_view(stacks@)),
        ensures
            final(self)@ == spec_replace(old(self)@, zstacks_view(stacks@)),
            final(self).wf(),
    {
        let has_first_image = if stacks.len() > 0 {
            stacks[0].images.len() > 0
        } else {
            false
        };
        if stacks.len() > 0 {
            self.stack_index = Some(0);
            self.focus_image_index = if has_first_image {
                Some(0)
            } else {
                None
            };
        } else {
            self.stack_index = None;
            self.focus_image_index = None;
        }
        self.stacks = stacks;
    }

    /// Advances the stack cursor as [`spec_skip`] says.
    pub fn skip(&mut self)
        requires
            old(self).wf(),
        ensures
            final(self)@ == spec_skip(old(self)@),
            final(self).wf(),
    {
        let len = self.stacks.len();
        if len == 0 {
            self.stack_index = None;
        } else {
            match self.stack_index {
                Some(i) => if i + 1 < len {
                    self.stack_index = Some(i + 1);
                },
                None => {},
            }
        }
    }

    /// Retreats the stack cursor as [`spec_previous`] says.
    pub fn previous(&mut self)
        requires
            old(self).wf(),
        ensures
            final(self)@ == spec_previous(old(self)@),
            final(self).wf(),
    {
        let len = self.stacks.len();
        if len == 0 {
            self.stack_index = None;
        } else {
            match self.stack_index {
                Some(i) => if i > 0 {
                    self.stack_index = Some(i - 1);
                },
                None => {},
            }
        }
    }

    /// Marks the current image as sharpest, as [`spec_mark`] says.
    pub fn mark_focus(&mut self)
        requires
            old(self).wf(),
        ensures
            final(self)@ == spec_mark(old(self)@),
            final(self).wf(),
    {
        match (self.stack_index, self.focus_image_index) {
            (Some(i), Some(f)) => {
                self.stacks[i].best_index = Some(f);
                self.annotation_cache.push(LightAnnotation::new(i, f));
                proof {
                    assert(self@.stacks =~= spec_mark(old(self)@).stacks);
                    assert(self@.annotation_cache =~= spec_mark(old(self)@).annotation_cache);
                }
            },
            _ => {},
        }
    }

    /// Replays the in-memory crash log into the stacks, oldest entry
    /// first, as [`spec_integrate`] says.  The log itself is untouched.
    fn integrate_annotation_cache(&mut self)
        requires
            old(self).wf(),
        ensures
            final(self)@ == (StateModel {
                stacks: spec_integrate(old(self)@.stacks, old(self)@.annotation_cache),
                ..old(self)@
            }),
            final(self).wf(),
    {
        let n = self.annotation_cache.len();
        proof {
            assert(self@.annotation_cache.skip(0) =~= self@.annotation_cache);
        }
        let mut k: usize = 0;
        while k < n
            invariant
                old(self).wf(),
                k <= n,
                n == self@.annotation_cache.len(),
                self@.annotation_cache == old(self)@.annotation_cache,
                self@.stack_index == old(self)@.stack_index,
                self@.focus_image_index == old(self)@.focus_image_index,
                self@.file_name == old(self)@.file_name,
                self@.root_path == old(self)@.root_path,
                self@.stacks.len() == old(self)@.stacks.len(),
                doc_wf(self@.stacks),
                spec_integrate(old(self)@.stacks, old(self)@.annotation_cache) == spec_integrate(
                    self@.stacks,
                    self@.annotation_cache.skip(k as int),
                ),
            decreases n - k,
        {
            let ghost pre = self@;
            let si = self.annotation_cache[k].stack_index;
            let fi = self.annotation_cache[k].focus_image_index;
            if si < self.stacks.len() {
                self.stacks[si].best_index = Some(fi);
                proof {
                    assert(self@.stacks =~= pre.stacks.update(
                        si as int,
                        ZStackModel { best_index: Some(fi), ..pre.stacks[si as int] },
                    ));
                }
            }
            proof {
                let entries = pre.annotation_cache.skip(k as int);
                assert(entries[0] == pre.annotation_cache[k as int]);
                assert(entries.drop_first() =~= pre.annotation_cache.skip(k as int + 1));
                assert(spec_integrate(pre.stacks, entries) == spec_integrate(
                    self@.stacks,
                    self@.annotation_cache.skip(k as int + 1),
                ));
            }
            k = k + 1;
        }
        proof {
            assert(self@.annotation_cache.skip(n as int) =~= Seq::<(usize, usize)>::empty());
            assert(self@ =~= (StateModel {
                stacks: spec_integrate(old(self)@.stacks, old(self)@.annotation_cache),
                ..old(self)@
            }));
        }
    }

    /// Empties the in-memory crash log: a freshly opened document starts
    /// a new one.
    pub(crate) fn clear_annotation_cache(&mut self)
        requires
            old(self).wf(),
        ensures
            final(self).wf(),
            final(self)@ == (StateModel {
                annotation_cache: Seq::<(usize, usize)>::empty(),
                ..old(self)@
            }),
    {
        self.annotation_cache = Vec::new();
        proof {
            assert(cache_view(self.annotation_cache@) =~= Seq::<(usize, usize)>::empty());
        }
    }

    /// Opens a document already read from disk: parses `contents`,
    /// replaces the collection, restarts the cursors and records the
    /// backing file.  When the text is not a document, the session is left
    /// exactly as it was.
    pub fn open(&mut self, file_name: String, root_path: String, contents: &str) -> (r: Result<
        (),
        SessionError,
    >)
        requires
            old(self).wf(),
        ensures
            final(self).wf(),
            match r {
                Ok(u) => p_doc(contents@) matches Some(d) && final(self)@ == (StateModel {
                    file_name: Some(file_name@),
                    root_path: Some(root_path@),
                    ..spec_replace(old(self)@, d)
                }),
                Err(e) => e == SessionError::ParseFailure && p_doc(contents@) is None
                    && final(self)@ == old(self)@,
            },
    {
        match parse_document(contents) {
            None => Err(SessionError::ParseFailure),
            Some(stacks) => {
                self.replace_foucs_stacks(stacks);
                self.file_name = Some(file_name);
                self.root_path = Some(root_path);
                Ok(())
            },
        }
    }

    /// Serializes the whole collection as the full checkpoint to be
    /// written to the backing document, and truncates the in-memory crash
    /// log: the checkpoint carries everything the log recorded.  Without a
    /// backing document, reports that and changes nothing.
    pub fn save(&mut self) -> (r: Result<PersistAction, SessionError>)
        requires
            old(self).wf(),
        ensures
            final(self).wf(),
            match r {
                Ok(a) => a matches PersistAction::WriteDocument(t, text) && target_names(
                    t,
                    old(self)@,
                ) && text@ == ser_doc(old(self)@.stacks) && final(self)@ == (StateModel {
                    annotation_cache: Seq::<(usize, usize)>::empty(),
                    ..old(self)@
                }),
                Err(e) => e == SessionError::NoBackingDocument && (old(self)@.file_name is None
                    || old(self)@.root_path is None) && final(self)@ == old(self)@,
            },
            r is Ok <==> old(self)@.file_name is Some && old(self)@.root_path is Some,
    {
        match (&self.root_path, &self.file_name) {
            (Some(rp), Some(fnm)) => {
                let target = PersistTarget { root_path: rp.clone(), file_name: fnm.clone() };
                let text = serialize_document(&self.stacks);
                self.annotation_cache = Vec::new();
                proof {
                    assert(cache_view(self.annotation_cache@) =~= Seq::<(usize, usize)>::empty());
                }
                Ok(PersistAction::WriteDocument(target, text))
            },
            _ => Err(SessionError::NoBackingDocument),
        }
    }

    /// Serializes the in-memory crash log to be written to the crash-log
    /// sibling file.  Cheap, meant after every mark.  Without a backing
    /// document, reports that; nothing is ever changed.
    pub fn save_tmp(&self) -> (r: Result<PersistAction, SessionError>)
        ensures
            match r {
                Ok(a) => a matches PersistAction::WriteCrashLog(t, text) && target_names(t, self@)
                    && text@ == ser_cache(self@.annotation_cache),
                Err(e) => e == SessionError::NoBackingDocument && (self@.file_name is None
                    || self@.root_path is None),
            },
            r is Ok <==> self@.file_name is Some && self@.root_path is Some,
    {
        match (&self.root_path, &self.file_name) {
            (Some(rp), Some(fnm)) => {
                let target = PersistTarget { root_path: rp.clone(), file_name: fnm.clone() };
                let text = serialize_cache(&self.annotation_cache);
                Ok(PersistAction::WriteCrashLog(target, text))
            },
            _ => Err(SessionError::NoBackingDocument),
        }
    }

    /// Asks the caller to delete the crash-log sibling file.  Without a
    /// backing document, reports that; nothing is ever changed.
    pub fn delete_tmp_file(&self) -> (r: Result<PersistAction, SessionError>)
        ensures
            match r {
                Ok(a) => a matches PersistAction::DeleteCrashLog(t) && target_names(t, self@),
                Err(e) => e == SessionError::NoBackingDocument && (self@.file_name is None
                    || self@.root_path is None),
            },
            r is Ok <==> self@.file_name is Some && self@.root_path is Some,
    {
        match (&self.root_path, &self.file_name) {
            (Some(rp), Some(fnm)) => {
                let target = PersistTarget { root_path: rp.clone(), file_name: fnm.clone() };
                Ok(PersistAction::DeleteCrashLog(target))
            },
            _ => Err(SessionError::NoBackingDocument),
        }
    }

    /// Reconciles a crash log already read from disk into the collection:
    /// parses `contents`, replays every entry in order, and leaves the
    /// in-memory crash log empty.  When the text is not a crash log, the
    /// session is left exactly as it was.
    pub fn integrate_tmp_file(&mut self, contents: &str) -> (r: Result<(), SessionError>)
        requires
            old(self).wf(),
        ensures
            final(self).wf(),
            match r {
                Ok(u) => p_cache(contents@) matches Some(entries) && final(self)@ == (StateModel {
                    stacks: spec_integrate(old(self)@.stacks, entries),
                    annotation_cache: Seq::<(usize, usize)>::empty(),
                    ..old(self)@
                }),
                Err(e) => e == SessionError::ParseFailure && p_cache(contents@) is None
                    && final(self)@ == old(self)@,
            },
    {
        match parse_cache_log(contents) {
            None => Err(SessionError::ParseFailure),
            Some(entries) => {
                self.annotation_cache = entries;
                self.integrate_annotation_cache();
                self.annotation_cache = Vec::new();
                proof {
                    assert(cache_view(self.annotation_cache@) =~= Seq::<(usize, usize)>::empty());
                }
                Ok(())
            },
        }
    }
}

} // verus!

//! The document model: annotated images, z-stacks, and crash-log entries.

use vstd::prelude::*;
use crate::raw::{RawJson, raw_wf};

verus! {

/// How many neighbour slots every image carries, whatever was supplied.
pub const NEIGHBOUR_SLOTS: usize = 8;

/// Mathematical value of an [`AnnotationImage`].
#[verifier::ext_equal]
pub struct ImageModel {
    pub image_path: Seq<char>,
    pub neighbours: Seq<Option<Seq<char>>>,
    pub extra: Seq<(Seq<char>, Seq<char>)>,
}

/// Mathematical value of an [`AnnotationZStack`].
#[verifier::ext_equal]
pub struct ZStackModel {
    pub images: Seq<ImageModel>,
    pub best_index: Option<usize>,
    pub extra: Seq<(Seq<char>, Seq<char>)>,
}

/// A well-formed image: exactly [`NEIGHBOUR_SLOTS`] neighbour slots, and
/// every unrecognized member a balanced raw value.
pub open spec fn image_wf(m: ImageModel) -> bool {
    &&& m.neighbours.len() == NEIGHBOUR_SLOTS
    &&& forall|k: int| 0 <= k < m.extra.len() ==> raw_wf(#[trigger] m.extra[k].1)
}

/// A well-formed z-stack: all images well-formed, unrecognized members
/// balanced.  `best_index` is deliberately unconstrained: a mark can refer
/// past the end of a stack the cursor left behind, and readers clamp.
pub open spec fn zstack_wf(m: ZStackModel) -> bool {
    &&& forall|k: int| 0 <= k < m.images.len() ==> image_wf(#[trigger] m.images[k])
    &&& forall|k: int| 0 <= k < m.extra.len() ==> raw_wf(#[trigger] m.extra[k].1)
}

/// A well-formed document: every stack well-formed.
pub open spec fn doc_wf(d: Seq<ZStackModel>) -> bool {
    forall|k: int| 0 <= k < d.len() ==> zstack_wf(#[trigger] d[k])
}

/// One photograph of a z-stack, with its grid neighbours and any
/// unrecognized document members it arrived with.
pub struct AnnotationImage {
    /// Path of the image file, relative to the document's root folder.
    pub image_path: String,
    /// Exactly [`NEIGHBOUR_SLOTS`] optional relative paths.
    pub neighbours: Vec<Option<String>>,
    /// Unrecognized members, kept verbatim in arrival order.
    pub extra: Vec<(String, RawJson)>,
}

impl View for AnnotationImage {
    type V = ImageModel;

    open spec fn view(&self) -> ImageModel {
        ImageModel {
            image_path: self.image_path@,
            neighbours: self.neighbours.deep_view(),
            extra: self.extra@.map_values(|p: (String, RawJson)| (p.0@, p.1@)),
        }
    }
}

/// One z-stack: its images in depth order, the operator's focus choice if
/// one was made, and any unrecognized document members.
pub struct AnnotationZStack {
    /// The images, insertion order being depth order.
    pub images: Vec<AnnotationImage>,
    /// The index of the image judged sharpest, if marked.
    pub best_index: Option<usize>,
    /// Unrecognized members, kept verbatim in arrival order.
    pub extra: Vec<(String, RawJson)>,
}

impl View for AnnotationZStack {
    type V = ZStackModel;

    open spec fn view(&self) -> ZStackModel {
        ZStackModel {
            images: self.images.deep_view(),
            best_index: self.best_index,
            extra: self.extra@.map_values(|p: (String, RawJson)| (p.0@, p.1@)),
        }
    }
}

impl DeepView for AnnotationImage {
    type V = ImageModel;

    open spec fn deep_view(&self) -> ImageModel {
        self.view()
    }
}

impl DeepView for AnnotationZStack {
    type V = ZStackModel;

    open spec fn deep_view(&self) -> ZStackModel {
        self.view()
    }
}

/// The view of a whole document held as a vector of stacks.
pub open spec fn zstacks_view(s: Seq<AnnotationZStack>) -> Seq<ZStackModel> {
    s.map_values(|z: AnnotationZStack| z@)
}

/// The view of a vector of unrecognized members.
pub open spec fn extras_view(e: Seq<(String, RawJson)>) -> Seq<(Seq<char>, Seq<char>)> {
    e.map_values(|p: (String, RawJson)| (p.0@, p.1@))
}

impl Clone for AnnotationImage {
    fn clone(&self) -> (r: Self)
        ensures
            r@ == self@,
    {
        let mut neighbours: Vec<Option<String>> = Vec::new();
        let mut k: usize = 0;
        while k < self.neighbours.len()
            invariant
                k <= self.neighbours.len(),
                neighbours@.len() == k,
                forall|j: int| 0 <= j < k ==> neighbours@[j] == self.neighbours@[j],
            decreases self.neighbours.len() - k,
        {
            let slot = match &self.neighbours[k] {
                Some(p) => Some(p.clone()),
                None => None,
            };
            proof {
                assert(slot == self.neighbours@[k as int]);
            }
            neighbours.push(slot);
            k = k + 1;
        }
        let mut extra: Vec<(String, RawJson)> = Vec::new();
        let mut k: usize = 0;
        while k < self.extra.len()
            invariant
                k <= self.extra.len(),
                extra@.len() == k,
                forall|j: int|
                    0 <= j < k ==> (#[trigger] extra@[j]).0 == self.extra@[j].0 && extra@[j].1@
                        == self.extra@[j].1@,
            decreases self.extra.len() - k,
        {
            let (key, value) = &self.extra[k];
            extra.push((key.clone(), value.clone()));
            k = k + 1;
        }
        let r = AnnotationImage { image_path: self.image_path.clone(), neighbours, extra };
        proof {
            assert(r@.neighbours =~= self@.neighbours);
            assert(r@.extra =~= self@.extra);
        }
        r
    }
}

impl AnnotationImage {
    /// Builds an image from any number of supplied neighbour paths: the
    /// first [`NEIGHBOUR_SLOTS`] are kept, shorter inputs are padded with
    /// absent entries, longer inputs are truncated.
    pub fn from_vec(image_path: String, neighbours: Vec<Option<String>>) -> (r: Self)
        ensures
            r@.image_path == image_path@,
            r@.neighbours.len() == NEIGHBOUR_SLOTS,
            forall|k: int|
                0 <= k < NEIGHBOUR_SLOTS ==> r@.neighbours[k] == (if k < neighbours.deep_view().len() {
                    neighbours.deep_view()[k]
                } else {
                    None
                }),
            r@.extra.len() == 0,
            image_wf(r@),
    {
        let mut slots: Vec<Option<String>> = Vec::new();
        let mut k: usize = 0;
        while k < NEIGHBOUR_SLOTS
            invariant
                k <= NEIGHBOUR_SLOTS,
                slots@.len() == k,
                forall|j: int|
                    0 <= j < k ==> slots@[j] == (if j < neighbours@.len() {
                        neighbours@[j]
                    } else {
                        None::<String>
                    }),
            decreases NEIGHBOUR_SLOTS - k,
        {
            let slot = if k < neighbours.len() {
                match &neighbours[k] {
                    Some(p) => Some(p.clone()),
                    None => None,
                }
            } else {
                None
            };
            proof {
                assert(slot == (if k < neighbours@.len() {
                    neighbours@[k as int]
                } else {
                    None::<String>
                }));
            }
            slots.push(slot);
            k = k + 1;
        }
        let r = AnnotationImage { image_path, neighbours: slots, extra: Vec::new() };
        proof {
            assert(r@.extra =~= Seq::<(Seq<char>, Seq<char>)>::empty());
            assert forall|k: int| 0 <= k < NEIGHBOUR_SLOTS implies r@.neighbours[k] == (if k
                < neighbours.deep_view().len() {
                neighbours.deep_view()[k]
            } else {
                None::<Seq<char>>
            }) by {
                assert(r@.neighbours[k] == r.neighbours@[k].deep_view());
            }
        }
        r
    }
}

/// One crash-log entry: a single mark-focus event, recorded independently
/// of the full document.
pub struct LightAnnotation {
    pub stack_index: usize,
    pub focus_image_index: usize,
}

impl View for LightAnnotation {
    type V = (usize, usize);

    open spec fn view(&self) -> (usize, usize) {
        (self.stack_index, self.focus_image_index)
    }
}

impl LightAnnotation {
    /// Records that the image at `focus_image_index` of the stack at
    /// `stack_index` was marked sharpest.
    pub fn new(stack_index: usize, focus_image_index: usize) -> (r: Self)
        ensures
            r@ == (stack_index, focus_image_index),
    {
        LightAnnotation { stack_index, focus_image_index }
    }
}

/// The view of the in-memory crash log.
pub open spec fn cache_view(s: Seq<LightAnnotation>) -> Seq<(usize, usize)> {
    s.map_values(|a: LightAnnotation| a@)
}

} // verus!

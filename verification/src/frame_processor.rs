//! The per-slot record of what was seen of each tracked object: its mask and
//! its contour.

use vstd::prelude::*;
use crate::closest::closest_pair;
use crate::closest::closest_pair_spec;
use crate::contour::is_largest;
use crate::contour::largest_contour;
use crate::contour::lemma_largest_unique;
use crate::geometry::Point;
use crate::image::is_threshold_of;
use crate::image::threshold;
use crate::image::Grid;
use crate::image::Luminance;
use crate::image::Mask;
use crate::point_set::foreground_points;
use crate::point_set::is_point_set;
use crate::point_set::sample_points;

verus! {

/// The mask and the contour of one tracked object.
pub struct Slot {
    mask: Mask,
    contour: Vec<Point>,
}

/// One slot per tracked object, with the settings of the extraction.
pub struct FrameProcessor {
    slots: Vec<Slot>,
    grayscale_threshold: i32,
    pixel_size: i32,
    spacing: i32,
}

/// A frame processor as a mathematical value.
pub struct ProcessorView {
    pub grayscale_threshold: i32,
    pub pixel_size: i32,
    pub spacing: i32,
    pub masks: Seq<Mask>,
    pub contours: Seq<Seq<Point>>,
}

/// The contour that is kept of those found: the last of those that enclose the
/// largest area, or the empty contour where none was found.
pub open spec fn chosen_contour(found: Seq<Vec<Point>>) -> Seq<Point> {
    if found.len() == 0 {
        Seq::empty()
    } else {
        found[choose|i: int| is_largest(found, i)]@
    }
}

/// The distance between the cells that the sampled extraction visits.
pub open spec fn stride_of(v: ProcessorView) -> int {
    v.pixel_size + v.spacing
}

/// Copies a contour.
fn copy_points(points: &Vec<Point>) -> (r: Vec<Point>)
    ensures
        r@ == points@,
{
    let mut r: Vec<Point> = Vec::new();
    let mut i: usize = 0;
    while i < points.len()
        invariant
            i <= points.len(),
            r@ == points@.take(i as int),
        decreases points.len() - i,
    {
        r.push(points[i]);
        assert(points@.take(i + 1) =~= points@.take(i as int).push(points@[i as int]));
        i += 1;
    }
    assert(points@.take(points.len() as int) =~= points@);
    r
}

impl View for FrameProcessor {
    type V = ProcessorView;

    closed spec fn view(&self) -> ProcessorView {
        ProcessorView {
            grayscale_threshold: self.grayscale_threshold,
            pixel_size: self.pixel_size,
            spacing: self.spacing,
            masks: Seq::new(self.slots@.len(), |i: int| self.slots@[i].mask),
            contours: Seq::new(self.slots@.len(), |i: int| self.slots@[i].contour@),
        }
    }
}

impl FrameProcessor {
    /// A processor without slots.
    pub fn new(pixel_size: i32, spacing: i32, grayscale_threshold: i32) -> (p: FrameProcessor)
        ensures
            p@ == (ProcessorView {
                grayscale_threshold,
                pixel_size,
                spacing,
                masks: Seq::empty(),
                contours: Seq::empty(),
            }),
    {
        let p = FrameProcessor { slots: Vec::new(), grayscale_threshold, pixel_size, spacing };
        assert(p@.masks =~= Seq::empty());
        assert(p@.contours =~= Seq::empty());
        p
    }

    /// Replaces the slots by `frames_amount` new ones, each with a mask
    /// without cells and an empty contour; by none where `frames_amount` is
    /// not positive.
    pub fn init(&mut self, frames_amount: i32)
        ensures
            final(self)@.masks.len() == if frames_amount > 0 {
                frames_amount as int
            } else {
                0
            },
            final(self)@.contours.len() == final(self)@.masks.len(),
            forall|i: int|
                0 <= i < final(self)@.masks.len() ==> (#[trigger] final(self)@.masks[i]).spec_width()
                    == 0 && final(self)@.masks[i].spec_height() == 0,
            forall|i: int|
                0 <= i < final(self)@.contours.len() ==> (#[trigger] final(self)@.contours[i]).len()
                    == 0,
            final(self)@.grayscale_threshold == old(self)@.grayscale_threshold,
            final(self)@.pixel_size == old(self)@.pixel_size,
            final(self)@.spacing == old(self)@.spacing,
    {
        let mut slots: Vec<Slot> = Vec::new();
        let mut i: i32 = 0;
        while i < frames_amount
            invariant
                0 <= i,
                i <= frames_amount || i == 0,
                slots@.len() == i,
                forall|k: int|
                    0 <= k < i ==> (#[trigger] slots@[k]).mask.spec_width() == 0
                        && slots@[k].mask.spec_height() == 0 && slots@[k].contour@.len() == 0,
            decreases frames_amount - i,
        {
            slots.push(Slot { mask: Grid::empty(), contour: Vec::new() });
            i += 1;
        }
        self.slots = slots;
    }

    /// The number of slots.
    pub fn slot_count(&self) -> (n: usize)
        ensures
            n == self@.masks.len(),
            n == self@.contours.len(),
    {
        self.slots.len()
    }

    pub fn grayscale_threshold(&self) -> (r: i32)
        ensures
            r == self@.grayscale_threshold,
    {
        self.grayscale_threshold
    }

    pub fn pixel_size(&self) -> (r: i32)
        ensures
            r == self@.pixel_size,
    {
        self.pixel_size
    }

    pub fn spacing(&self) -> (r: i32)
        ensures
            r == self@.spacing,
    {
        self.spacing
    }

    /// The mask of a slot, if there is such a slot.
    pub fn mask(&self, index: usize) -> (r: Option<&Mask>)
        ensures
            r is Some <==> index < self@.masks.len(),
            r matches Some(m) ==> *m == self@.masks[index as int],
    {
        if index < self.slots.len() {
            Some(&self.slots[index].mask)
        } else {
            None
        }
    }

    /// The contour of a slot, if there is such a slot.
    pub fn contour(&self, index: usize) -> (r: Option<&Vec<Point>>)
        ensures
            r is Some <==> index < self@.contours.len(),
            r matches Some(c) ==> c@ == self@.contours[index as int],
    {
        if index < self.slots.len() {
            Some(&self.slots[index].contour)
        } else {
            None
        }
    }

    /// Classifies a luminance image at the processor's threshold and keeps the
    /// outcome as the mask of slot `index`: the foreground is what is darker
    /// than the threshold.
    pub fn convert_to_grayscale(&mut self, gray: &Luminance, index: usize)
        requires
            index < old(self)@.masks.len(),
        ensures
            is_threshold_of(
                final(self)@.masks[index as int],
                *gray,
                old(self)@.grayscale_threshold,
            ),
            final(self)@ == (ProcessorView {
                masks: old(self)@.masks.update(index as int, final(self)@.masks[index as int]),
                ..old(self)@
            }),
    {
        let ghost before = self@;
        let mask = threshold(gray, self.grayscale_threshold);
        self.slots[index].mask = mask;
        proof {
            assert(self@.masks =~= before.masks.update(index as int, self@.masks[index as int]));
            assert(self@.contours =~= before.contours);
        }
    }

    /// Keeps, as the contour of slot `index`, the one of the contours found
    /// that encloses the largest area, and the last of them where several
    /// enclose the same. Where none was found the contour of the slot is
    /// emptied.
    pub fn find_object_contour(&mut self, index: usize, found: &Vec<Vec<Point>>)
        requires
            index < old(self)@.contours.len(),
        ensures
            final(self)@ == (ProcessorView {
                contours: old(self)@.contours.update(index as int, chosen_contour(found@)),
                ..old(self)@
            }),
    {
        let ghost before = self@;
        let contour = match largest_contour(found) {
            Some(i) => {
                proof {
                    let j = choose|j: int| is_largest(found@, j);
                    lemma_largest_unique(found@, i as int, j);
                }
                copy_points(&found[i])
            },
            None => Vec::new(),
        };
        self.slots[index].contour = contour;
        proof {
            assert(self@.contours =~= before.contours.update(index as int, chosen_contour(found@)));
            assert(self@.masks =~= before.masks);
        }
    }

    /// The foreground points of slot `index`: every foreground cell of its
    /// mask, row by row.
    pub fn extract_object(&self, index: usize) -> (points: Vec<Point>)
        requires
            index < self@.masks.len(),
        ensures
            is_point_set(self@.masks[index as int], 1, points@),
    {
        foreground_points(&self.slots[index].mask)
    }

    /// The foreground points of slot `index` on the grid of the pixel size and
    /// spacing: the foreground cells of its mask whose column and row are
    /// multiples of their sum. There is no such grid where the sum is not
    /// positive.
    pub fn extract_object_sampled(&self, index: usize) -> (r: Option<Vec<Point>>)
        requires
            index < self@.masks.len(),
        ensures
            r is Some <==> stride_of(self@) > 0,
            r matches Some(points) ==> is_point_set(
                self@.masks[index as int],
                stride_of(self@),
                points@,
            ),
    {
        let stride: i64 = self.pixel_size as i64 + self.spacing as i64;
        sample_points(&self.slots[index].mask, stride)
    }

    /// The two closest points between the contours of two slots: the first
    /// pair of minimum distance in contour order, or the origin twice where
    /// either contour is empty.
    pub fn find_closest_points(&self, index_1: usize, index_2: usize) -> (r: (Point, Point))
        requires
            index_1 < self@.contours.len(),
            index_2 < self@.contours.len(),
        ensures
            r == closest_pair_spec(self@.contours[index_1 as int], self@.contours[index_2 as int]),
            self@.contours[index_1 as int].len() == 0 || self@.contours[index_2 as int].len() == 0
                ==> r == (Point { x: 0, y: 0 }, Point { x: 0, y: 0 }),
    {
        closest_pair(&self.slots[index_1].contour, &self.slots[index_2].contour)
    }
}

} // verus!

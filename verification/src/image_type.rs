//! Kinds of icon images and the order in which they are preferred.

use vstd::prelude::*;
use core::cmp::Ordering;

verus! {

/// Expected type of an image.
#[derive(Clone, Copy, PartialEq, Eq, Structural, Debug)]
pub enum ImageType {
    /// A bitmap image of a known square size.
    SizedBitmap(u32),
    /// A bitmap image of an unknown size.
    Bitmap,
    /// A vector image.
    Scalable,
    /// A monochrome vector image.
    Symbolic,
}

/// The class of an image type, from least to most preferred.
pub open spec fn image_class(t: ImageType) -> int {
    match t {
        ImageType::Symbolic => 0,
        ImageType::Bitmap => 1,
        ImageType::SizedBitmap(_) => 2,
        ImageType::Scalable => 3,
    }
}

/// The size that orders image types within a class.
pub open spec fn image_size(t: ImageType) -> int {
    match t {
        ImageType::SizedBitmap(size) => size as int,
        _ => 0,
    }
}

/// Whether `a` is preferred over `b` by class, then by size.
pub open spec fn key_greater(a: ImageType, b: ImageType) -> bool {
    image_class(a) > image_class(b) || (image_class(a) == image_class(b) && image_size(a)
        > image_size(b))
}

/// The preference order of image types: scalable images first, then bitmaps
/// of known size (bigger first), then bitmaps of unknown size, then symbolic
/// images.
pub open spec fn image_order(a: ImageType, b: ImageType) -> Ordering {
    if key_greater(a, b) {
        Ordering::Greater
    } else if key_greater(b, a) {
        Ordering::Less
    } else {
        Ordering::Equal
    }
}

impl ImageType {
    /// Compares two image types by preference.
    pub fn compare(&self, other: &Self) -> (r: Ordering)
        ensures
            r == image_order(*self, *other),
    {
        if *self == *other {
            return Ordering::Equal;
        }
        match (self, other) {
            (ImageType::Scalable, _) => Ordering::Greater,
            (_, ImageType::Scalable) => Ordering::Less,
            (ImageType::SizedBitmap(size), ImageType::SizedBitmap(other_size)) => {
                if *size < *other_size {
                    Ordering::Less
                } else if *size == *other_size {
                    Ordering::Equal
                } else {
                    Ordering::Greater
                }
            },
            (ImageType::SizedBitmap(_), _) => Ordering::Greater,
            (_, ImageType::SizedBitmap(_)) => Ordering::Less,
            (ImageType::Bitmap, _) => Ordering::Greater,
            (_, ImageType::Bitmap) => Ordering::Less,
            (ImageType::Symbolic, ImageType::Symbolic) => Ordering::Equal,
        }
    }

    /// Whether this image type is preferred over `other` (`self > other`).
    pub fn is_preferred_over(&self, other: &Self) -> (r: bool)
        ensures
            r == (image_order(*self, *other) == Ordering::Greater),
    {
        match self.compare(other) {
            Ordering::Greater => true,
            Ordering::Less => false,
            Ordering::Equal => false,
        }
    }
}

/// The preference order compares by class, then by size.
pub proof fn lemma_image_order_by_key(a: ImageType, b: ImageType)
    ensures
        (image_order(a, b) == Ordering::Greater) == key_greater(a, b),
        (image_order(a, b) == Ordering::Less) == key_greater(b, a),
        (image_order(a, b) == Ordering::Equal) == (a == b),
{
}

/// The preference order is antisymmetric: swapping the arguments reverses it.
pub proof fn lemma_image_order_antisymmetric(a: ImageType, b: ImageType)
    ensures
        (image_order(a, b) == Ordering::Greater) == (image_order(b, a) == Ordering::Less),
        (image_order(a, b) == Ordering::Equal) == (image_order(b, a) == Ordering::Equal),
{
}

/// The preference order is transitive.
pub proof fn lemma_image_order_transitive(a: ImageType, b: ImageType, c: ImageType)
    requires
        image_order(a, b) == Ordering::Greater,
        image_order(b, c) == Ordering::Greater,
    ensures
        image_order(a, c) == Ordering::Greater,
{
    lemma_image_order_by_key(a, b);
    lemma_image_order_by_key(b, c);
    lemma_image_order_by_key(a, c);
}

/// Any two image types are comparable: one is preferred, or they are equal.
pub proof fn lemma_image_order_total(a: ImageType, b: ImageType)
    ensures
        image_order(a, b) == Ordering::Greater || image_order(a, b) == Ordering::Less || a == b,
{
}

/// Bigger bitmaps are preferred: two sized bitmaps compare as their sizes do.
pub proof fn lemma_sized_bitmaps_by_size(a: u32, b: u32)
    ensures
        (image_order(ImageType::SizedBitmap(a), ImageType::SizedBitmap(b)) == Ordering::Greater)
            == (a > b),
        (image_order(ImageType::SizedBitmap(a), ImageType::SizedBitmap(b)) == Ordering::Less) == (a
            < b),
        (image_order(ImageType::SizedBitmap(a), ImageType::SizedBitmap(b)) == Ordering::Equal) == (a
            == b),
{
}

/// The classes rank in a fixed order: scalable above every other type, sized
/// bitmaps above unsized ones and symbolic ones, unsized bitmaps above
/// symbolic ones.
pub proof fn lemma_image_classes_ranked(a: u32)
    ensures
        image_order(ImageType::Scalable, ImageType::SizedBitmap(a)) == Ordering::Greater,
        image_order(ImageType::Scalable, ImageType::Bitmap) == Ordering::Greater,
        image_order(ImageType::Scalable, ImageType::Symbolic) == Ordering::Greater,
        image_order(ImageType::SizedBitmap(a), ImageType::Bitmap) == Ordering::Greater,
        image_order(ImageType::SizedBitmap(a), ImageType::Symbolic) == Ordering::Greater,
        image_order(ImageType::Bitmap, ImageType::Symbolic) == Ordering::Greater,
{
}

} // verus!

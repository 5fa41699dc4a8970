//! IDX binary layout validation, the format MNIST-style datasets use.
//!
//! An IDX3 image file: two zero bytes, dtype `0x08`, three dimensions,
//! then item count, row count and column count as big-endian 32-bit
//! words, then one byte per pixel. An IDX1 label file: two zero bytes,
//! dtype `0x08`, one dimension, the item count, then one class byte per
//! item. The checks here validate both headers, the byte counts, and
//! that every label is a class below `n_classes`; turning the pixel
//! bytes into training rows is the numeric engine's step.

use vstd::prelude::*;

verus! {

/// The dimensions an IDX image header declares.
#[derive(Debug, Clone, Copy, PartialEq, Eq, Structural)]
pub struct IdxDims {
    /// Number of images, equal to the number of labels.
    pub n_items: usize,
    /// Image height in pixels.
    pub rows: usize,
    /// Image width in pixels.
    pub cols: usize,
}

/// Why an IDX file pair is rejected, in the order the checks run.
#[derive(Debug, Clone, Copy, PartialEq, Eq, Structural)]
pub enum IdxError {
    /// The image file is shorter than its 16-byte header.
    ImageTooShort,
    /// The image file's first two bytes are not zero.
    ImageBadMagic,
    /// The image file's dtype byte is not `0x08`.
    ImageBadDtype,
    /// The image file's dimension byte is not 3.
    ImageBadDims,
    /// Rows times columns does not fit in `usize`.
    PixelCountOverflow,
    /// Items times pixels, or that plus the header, does not fit.
    DataLengthOverflow,
    /// The image file is shorter than its header declares.
    ImageDataTruncated,
    /// The label file is shorter than its 8-byte header.
    LabelTooShort,
    /// The label file's first two bytes are not zero.
    LabelBadMagic,
    /// The label file's dtype byte is not `0x08`.
    LabelBadDtype,
    /// The label file's dimension byte is not 1.
    LabelBadDims,
    /// The two files declare different item counts.
    CountMismatch,
    /// The label file is shorter than its header declares.
    LabelDataTruncated,
    /// Fewer than two classes leave nothing to classify.
    TooFewClasses,
    /// A label byte is not below `n_classes`; `index` is the first.
    LabelOutOfRange { index: usize, class: u8 },
}

/// The value of four big-endian bytes.
pub open spec fn be_u32(b0: u8, b1: u8, b2: u8, b3: u8) -> u32 {
    ((b0 as int) * 0x1000000 + (b1 as int) * 0x10000 + (b2 as int) * 0x100 + (b3 as int)) as u32
}

/// The class the label file assigns to item `i`.
pub open spec fn label_class(label: Seq<u8>, i: int) -> usize {
    label[8 + i] as usize
}

/// The first label index at or after `i` whose class byte is not below
/// `n_classes`, if any.
pub open spec fn first_bad_label(label: Seq<u8>, n_items: int, n_classes: usize, i: int) -> Option<
    int,
>
    decreases n_items - i,
{
    if i < 0 || i >= n_items {
        None
    } else if label_class(label, i) >= n_classes {
        Some(i)
    } else {
        first_bad_label(label, n_items, n_classes, i + 1)
    }
}

/// What validating an IDX image and label pair yields, check by check:
/// the image header, the declared byte counts, the label header, the
/// matching item counts, and every label in range.
pub open spec fn idx_check_spec(image: Seq<u8>, label: Seq<u8>, n_classes: usize) -> Result<
    IdxDims,
    IdxError,
> {
    if image.len() < 16 {
        Err(IdxError::ImageTooShort)
    } else if image[0] != 0 || image[1] != 0 {
        Err(IdxError::ImageBadMagic)
    } else if image[2] != 8 {
        Err(IdxError::ImageBadDtype)
    } else if image[3] != 3 {
        Err(IdxError::ImageBadDims)
    } else {
        let n_items = be_u32(image[4], image[5], image[6], image[7]) as usize;
        let rows = be_u32(image[8], image[9], image[10], image[11]) as usize;
        let cols = be_u32(image[12], image[13], image[14], image[15]) as usize;
        if rows * cols > usize::MAX {
            Err(IdxError::PixelCountOverflow)
        } else if n_items * (rows * cols) > usize::MAX || 16 + n_items * (rows * cols)
            > usize::MAX {
            Err(IdxError::DataLengthOverflow)
        } else if image.len() < 16 + n_items * (rows * cols) {
            Err(IdxError::ImageDataTruncated)
        } else if label.len() < 8 {
            Err(IdxError::LabelTooShort)
        } else if label[0] != 0 || label[1] != 0 {
            Err(IdxError::LabelBadMagic)
        } else if label[2] != 8 {
            Err(IdxError::LabelBadDtype)
        } else if label[3] != 1 {
            Err(IdxError::LabelBadDims)
        } else if be_u32(label[4], label[5], label[6], label[7]) as usize != n_items {
            Err(IdxError::CountMismatch)
        } else if label.len() < 8 + n_items {
            Err(IdxError::LabelDataTruncated)
        } else if n_classes < 2 {
            Err(IdxError::TooFewClasses)
        } else {
            match first_bad_label(label, n_items as int, n_classes, 0) {
                Some(i) => Err(IdxError::LabelOutOfRange { index: i as usize, class: label[8 + i] }),
                None => Ok(IdxDims { n_items, rows, cols }),
            }
        }
    }
}

/// Reads four big-endian bytes of `b` starting at `i`.
fn read_be_u32(b: &[u8], i: usize) -> (r: u32)
    requires
        i + 4 <= b@.len(),
    ensures
        r == be_u32(b@[i as int], b@[i as int + 1], b@[i as int + 2], b@[i as int + 3]),
{
    (b[i] as u32) * 0x1000000 + (b[i + 1] as u32) * 0x10000 + (b[i + 2] as u32) * 0x100 + (b[i
        + 3] as u32)
}

/// Validates an IDX image and label file pair: both headers, the byte
/// counts they declare, the matching item counts, and every label
/// being a class below `n_classes`. On success the pair holds
/// `n_items` images of `rows`×`cols` pixels and as many in-range labels.
#[verifier::loop_isolation(false)]
pub fn idx_check_pair(image: &[u8], label: &[u8], n_classes: usize) -> (r: Result<
    IdxDims,
    IdxError,
>)
    ensures
        r == idx_check_spec(image@, label@, n_classes),
        r is Ok ==> 16 + r->Ok_0.n_items * (r->Ok_0.rows * r->Ok_0.cols) <= image@.len(),
        r is Ok ==> 8 + r->Ok_0.n_items <= label@.len() && n_classes >= 2,
        r is Ok ==> forall|i: int|
            0 <= i < r->Ok_0.n_items ==> #[trigger] label_class(label@, i) < n_classes,
{
    if image.len() < 16 {
        return Err(IdxError::ImageTooShort);
    }
    if image[0] != 0 || image[1] != 0 {
        return Err(IdxError::ImageBadMagic);
    }
    if image[2] != 8 {
        return Err(IdxError::ImageBadDtype);
    }
    if image[3] != 3 {
        return Err(IdxError::ImageBadDims);
    }
    let n_items = read_be_u32(image, 4) as usize;
    let rows = read_be_u32(image, 8) as usize;
    let cols = read_be_u32(image, 12) as usize;
    let n_pixels = match rows.checked_mul(cols) {
        Some(p) => p,
        None => {
            return Err(IdxError::PixelCountOverflow);
        },
    };
    let data_len = match n_items.checked_mul(n_pixels) {
        Some(d) => d,
        None => {
            return Err(IdxError::DataLengthOverflow);
        },
    };
    let required_image_len = match data_len.checked_add(16) {
        Some(t) => t,
        None => {
            return Err(IdxError::DataLengthOverflow);
        },
    };
    if image.len() < required_image_len {
        return Err(IdxError::ImageDataTruncated);
    }
    if label.len() < 8 {
        return Err(IdxError::LabelTooShort);
    }
    if label[0] != 0 || label[1] != 0 {
        return Err(IdxError::LabelBadMagic);
    }
    if label[2] != 8 {
        return Err(IdxError::LabelBadDtype);
    }
    if label[3] != 1 {
        return Err(IdxError::LabelBadDims);
    }
    let label_count = read_be_u32(label, 4) as usize;
    if label_count != n_items {
        return Err(IdxError::CountMismatch);
    }
    if label.len() - 8 < n_items {
        return Err(IdxError::LabelDataTruncated);
    }
    if n_classes < 2 {
        return Err(IdxError::TooFewClasses);
    }
    let llen = label.len();
    let mut i: usize = 0;
    while i < n_items
        invariant
            llen == label@.len(),
            8 + n_items <= label@.len(),
            i <= n_items,
            first_bad_label(label@, n_items as int, n_classes, 0) == first_bad_label(
                label@,
                n_items as int,
                n_classes,
                i as int,
            ),
            forall|j: int| 0 <= j < i ==> #[trigger] label_class(label@, j) < n_classes,
        decreases n_items - i,
    {
        let class = label[8 + i];
        if class as usize >= n_classes {
            proof {
                assert(first_bad_label(label@, n_items as int, n_classes, i as int) == Some(
                    i as int,
                ));
            }
            return Err(IdxError::LabelOutOfRange { index: i, class });
        }
        i += 1;
    }
    Ok(IdxDims { n_items, rows, cols })
}

} // verus!

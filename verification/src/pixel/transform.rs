//! How the samples of a decoded image are rearranged as they are written.

use vstd::prelude::*;

use crate::image_types::Orientation;

verus! {

/// How the samples of a decoded image are rearranged as they are written.
///
/// The eight exif orientations are the identity, a mirror in one direction or
/// both, a transpose, and the two mirrors composed with it, so three flags hold
/// all of them. The mirrors are in the frame's own coordinates, which is why a
/// transpose swaps the size the frame is built with: [`Self::output_size`] is
/// what a clip is sized from, and [`Self::source_of`] is what the writer reads
/// for each destination sample.
#[derive(Clone, Copy, Debug, PartialEq, Eq, Structural)]
pub struct Transform {
    pub transpose: bool,
    pub flip_x: bool,
    pub flip_y: bool,
}

impl Default for Transform {
    /// The transform that rearranges nothing.
    fn default() -> (transform: Self)
        ensures
            transform == Transform::unchanged(),
    {
        Transform::identity()
    }
}

impl Transform {
    /// The transform with the given flags.
    pub open spec fn with(transpose: bool, flip_x: bool, flip_y: bool) -> Transform {
        Transform { transpose, flip_x, flip_y }
    }

    /// Whether width and height are swapped.
    pub open spec fn swaps(self) -> bool {
        self.transpose
    }

    /// Whether the columns of the frame are mirrored.
    pub open spec fn mirrors_columns(self) -> bool {
        self.flip_x
    }

    /// Whether the rows of the frame are mirrored.
    pub open spec fn mirrors_rows(self) -> bool {
        self.flip_y
    }

    /// The transform that rearranges nothing.
    pub open spec fn unchanged() -> Transform {
        Transform::with(false, false, false)
    }

    /// The transform that shows a picture of an orientation upright.
    pub open spec fn of_orientation(orientation: Orientation) -> Transform {
        match orientation {
            Orientation::NoTransforms => Transform::with(false, false, false),
            Orientation::FlipHorizontal => Transform::with(false, true, false),
            Orientation::Rotate180 => Transform::with(false, true, true),
            Orientation::FlipVertical => Transform::with(false, false, true),
            Orientation::Rotate90 => Transform::with(true, true, false),
            Orientation::Rotate90FlipH => Transform::with(true, false, false),
            Orientation::Rotate270FlipH => Transform::with(true, true, true),
            Orientation::Rotate270 => Transform::with(true, false, true),
        }
    }

    /// Size an image of `width` x `height` is handed out as.
    pub open spec fn size(self, width: int, height: int) -> (int, int) {
        if self.swaps() {
            (height, width)
        } else {
            (width, height)
        }
    }

    /// Source sample of the destination sample `(x, y)` of a frame of `width` x
    /// `height`: the mirrors of the frame's coordinates, then the transpose.
    pub open spec fn source(self, x: int, y: int, width: int, height: int) -> (int, int) {
        let column = if self.mirrors_columns() {
            width - 1 - x
        } else {
            x
        };
        let row = if self.mirrors_rows() {
            height - 1 - y
        } else {
            y
        };
        if self.swaps() {
            (row, column)
        } else {
            (column, row)
        }
    }

    /// Transform that rearranges nothing, which is what a file without an exif
    /// orientation, and every file when the caller turns rotation off, gets.
    pub fn identity() -> (transform: Transform)
        ensures
            transform == Transform::unchanged(),
    {
        Transform { transpose: false, flip_x: false, flip_y: false }
    }

    /// Transform that hands out `orientation` the way a viewer shows it.
    ///
    /// The composed orientations rotate the stored picture first and mirror it
    /// second: `Rotate90FlipH` comes out as the plain transpose, while
    /// `Rotate90` on its own does not.
    pub fn from_orientation(orientation: Orientation) -> (transform: Transform)
        ensures
            transform == Transform::of_orientation(orientation),
    {
        match orientation {
            Orientation::NoTransforms => Transform::identity(),
            Orientation::FlipHorizontal => Transform {
                transpose: false,
                flip_x: true,
                flip_y: false,
            },
            Orientation::Rotate180 => Transform { transpose: false, flip_x: true, flip_y: true },
            Orientation::FlipVertical => Transform {
                transpose: false,
                flip_x: false,
                flip_y: true,
            },
            // A quarter turn clockwise reads the source column `y` for
            // destination row `y`, and its row `output_width - 1 - x`.
            Orientation::Rotate90 => Transform { transpose: true, flip_x: true, flip_y: false },
            // The quarter turn followed by a horizontal mirror, which is the
            // transpose of the stored picture and not a rotation at all.
            Orientation::Rotate90FlipH => Transform {
                transpose: true,
                flip_x: false,
                flip_y: false,
            },
            // The anti-diagonal twin, which is a quarter turn the other way
            // followed by the same mirror.
            Orientation::Rotate270FlipH => Transform {
                transpose: true,
                flip_x: true,
                flip_y: true,
            },
            // A quarter turn counter-clockwise, which is the anti-diagonal
            // transpose with its row mirrored.
            Orientation::Rotate270 => Transform { transpose: true, flip_x: false, flip_y: true },
        }
    }

    /// Whether it swaps width and height.
    pub fn transposes(self) -> (swaps: bool)
        ensures
            swaps == self.swaps(),
    {
        self.transpose
    }

    /// Size this transform hands an image of `width` x `height` out as.
    pub fn output_size(self, width: usize, height: usize) -> (size: (usize, usize))
        ensures
            (size.0 as int, size.1 as int) == self.size(width as int, height as int),
    {
        if self.transpose {
            (height, width)
        } else {
            (width, height)
        }
    }

    /// Source sample of the destination sample `(x, y)` of an `output_width` x
    /// `output_height` frame.
    ///
    /// The mirrors are applied first, in the frame's coordinates, and the
    /// transpose swaps what is left: a mirror and a transpose do not commute,
    /// and this order is the one that makes exif 5 the plain transpose and exif
    /// 7 its anti-diagonal twin.
    pub fn source_of(
        self,
        x: usize,
        y: usize,
        output_width: usize,
        output_height: usize,
    ) -> (source: (usize, usize))
        requires
            self.mirrors_columns() ==> x < output_width,
            self.mirrors_rows() ==> y < output_height,
        ensures
            (source.0 as int, source.1 as int) == self.source(
                x as int,
                y as int,
                output_width as int,
                output_height as int,
            ),
    {
        let column: usize = if self.flip_x {
            output_width - 1 - x
        } else {
            x
        };
        let row: usize = if self.flip_y {
            output_height - 1 - y
        } else {
            y
        };
        if self.transpose {
            (row, column)
        } else {
            (column, row)
        }
    }
}

/// The orientation that undoes `orientation`.
pub open spec fn inverse(orientation: Orientation) -> Orientation {
    match orientation {
        Orientation::Rotate90 => Orientation::Rotate270,
        Orientation::Rotate270 => Orientation::Rotate90,
        other => other,
    }
}

/// Code that undoes `orientation`, for a decoder that has already handed the
/// picture out the way the file describes it.
///
/// The eight codes are the symmetry group of the square, in which the two
/// quarter turns are each other's inverse and every other code is its own. A
/// stored picture is the displayed one with the inverse applied.
pub fn inverse_orientation(orientation: Orientation) -> (undone: Orientation)
    ensures
        undone == inverse(orientation),
{
    match orientation {
        Orientation::Rotate90 => Orientation::Rotate270,
        Orientation::Rotate270 => Orientation::Rotate90,
        other => other,
    }
}

/// Every destination sample is read from inside the source picture.
pub proof fn a_source_lies_inside_the_picture(
    transform: Transform,
    x: int,
    y: int,
    width: int,
    height: int,
)
    requires
        0 <= x < transform.size(width, height).0,
        0 <= y < transform.size(width, height).1,
    ensures
        ({
            let (output_width, output_height) = transform.size(width, height);
            let (column, row) = transform.source(x, y, output_width, output_height);
            0 <= column < width && 0 <= row < height
        }),
{
}

/// No two destination samples are read from the same source sample.
pub proof fn no_source_sample_is_read_twice(
    transform: Transform,
    left: (int, int),
    right: (int, int),
    width: int,
    height: int,
)
    requires
        transform.source(left.0, left.1, width, height) == transform.source(
            right.0,
            right.1,
            width,
            height,
        ),
    ensures
        left == right,
{
}

/// Every source sample is read for some destination sample.
pub proof fn every_source_sample_is_read(
    transform: Transform,
    column: int,
    row: int,
    width: int,
    height: int,
) -> (destination: (int, int))
    requires
        0 <= column < width,
        0 <= row < height,
    ensures
        ({
            let (output_width, output_height) = transform.size(width, height);
            &&& 0 <= destination.0 < output_width
            &&& 0 <= destination.1 < output_height
            &&& transform.source(destination.0, destination.1, output_width, output_height) == (
                column,
                row,
            )
        }),
{
    let (output_width, output_height) = transform.size(width, height);
    let (x, y) = if transform.swaps() {
        (row, column)
    } else {
        (column, row)
    };
    (
        if transform.mirrors_columns() {
            output_width - 1 - x
        } else {
            x
        },
        if transform.mirrors_rows() {
            output_height - 1 - y
        } else {
            y
        },
    )
}

/// Showing a picture of an orientation and then one of its inverse hands the
/// stored picture back, sample by sample.
pub proof fn an_inverse_orientation_undoes_the_orientation(
    orientation: Orientation,
    x: int,
    y: int,
    width: int,
    height: int,
)
    ensures
        ({
            let shown = Transform::of_orientation(orientation);
            let undone = Transform::of_orientation(inverse(orientation));
            let (shown_width, shown_height) = shown.size(width, height);
            let (column, row) = undone.source(x, y, width, height);
            &&& undone.size(shown_width, shown_height) == (width, height)
            &&& shown.source(column, row, shown_width, shown_height) == (x, y)
        }),
{
}

/// The orientations from five to eight swap width and height, and no other does.
pub proof fn the_last_four_orientations_swap_the_size(orientation: Orientation)
    ensures
        Transform::of_orientation(orientation).swaps() == (orientation.exif() >= 5),
{
}

/// The eight exif codes, by what a viewer shows in column `x` of row `y` of a
/// picture that is shown `width` samples wide and `height` samples high: the
/// stored sample the code names for that place.
pub proof fn a_picture_is_shown_the_way_its_code_says(
    orientation: Orientation,
    x: int,
    y: int,
    width: int,
    height: int,
)
    ensures
        ({
            let shown = Transform::of_orientation(orientation);
            let (column, row) = shown.source(x, y, width, height);
            match orientation {
                Orientation::NoTransforms => column == x && row == y,
                Orientation::FlipHorizontal => column == width - 1 - x && row == y,
                Orientation::Rotate180 => column == width - 1 - x && row == height - 1 - y,
                Orientation::FlipVertical => column == x && row == height - 1 - y,
                Orientation::Rotate90FlipH => column == y && row == x,
                Orientation::Rotate90 => column == y && row == width - 1 - x,
                Orientation::Rotate270FlipH => column == height - 1 - y && row == width - 1 - x,
                Orientation::Rotate270 => column == height - 1 - y && row == x,
            }
        }),
        Transform::of_orientation(orientation).transpose == (match orientation {
            Orientation::Rotate90
            | Orientation::Rotate90FlipH
            | Orientation::Rotate270
            | Orientation::Rotate270FlipH => true,
            _ => false,
        }),
{
}

/// What a transform does is what its three flags say: the mirrors act on the
/// place in the frame, and a transpose then swaps column and row, and with them
/// width and height.
pub proof fn a_transform_is_its_three_flags(
    transform: Transform,
    x: int,
    y: int,
    width: int,
    height: int,
)
    ensures
        transform.size(width, height) == (if transform.transpose {
            (height, width)
        } else {
            (width, height)
        }),
        ({
            let (column, row) = transform.source(x, y, width, height);
            let across = if transform.flip_x {
                width - 1 - x
            } else {
                x
            };
            let down = if transform.flip_y {
                height - 1 - y
            } else {
                y
            };
            &&& transform.transpose ==> column == down && row == across
            &&& !transform.transpose ==> column == across && row == down
        }),
        ({
            let plain = Transform::unchanged();
            !plain.transpose && !plain.flip_x && !plain.flip_y
        }),
{
}

} // verus!

use vstd::prelude::*;

verus! {

/// Errors raised by the pattern pipeline and by project handling.
#[derive(Clone, Debug, PartialEq)]
pub enum Error {
    /// A project of that name exists already.
    ExistsAlready,
    /// No project of that name exists.
    DoesNotExist,
    /// A reading or writing error, or anything that fits no other kind.
    Generic(String),
    /// The given project path is not valid.
    InvalidProjectPath(String),
    /// An image could not be decoded.
    DecodingError(String),
    /// The project holds no original image.
    EmptyOriginal,
    /// The project holds no processed image.
    EmptyProcessed,
    /// An image could not be shown by the system viewer.
    OpenFailure(String),
    /// The number of colours could not be reduced.
    ColourReductionErr(String),
    /// Drawing the axes around the chart failed.
    PlotterError(String),
    /// A grid dimension is zero or larger than the image.
    InvalidDimensions,
    /// The palette holds fewer colours than were asked for, or none were asked for.
    PaletteTooSmall,
}

} // verus!

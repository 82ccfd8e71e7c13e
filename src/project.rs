use vstd::prelude::*;
use crate::buffer::PixelBuffer;
use crate::err::Error;

verus! {

/// Which of a project's two pictures is meant.
#[derive(Clone, Copy, Debug, PartialEq, Eq, Structural)]
pub enum ImageType {
    /// The picture the project was made from.
    Original,
    /// The finished pattern chart.
    Processed,
}

impl ImageType {
    /// Reads a picture kind from its name: `original` or `processed`.
    pub fn from_name(name: &str) -> (r: Option<ImageType>)
        ensures
            name@ == "original"@ ==> r == Some(ImageType::Original),
            name@ == "processed"@ ==> r == Some(ImageType::Processed),
            name@ != "original"@ && name@ != "processed"@ ==> r is None,
    {
        let given: String = name.to_owned();
        let original: String = "original".to_owned();
        let processed: String = "processed".to_owned();
        proof {
            reveal_strlit("original");
            reveal_strlit("processed");
            assert("original"@.len() != "processed"@.len());
        }
        if given == original {
            Some(ImageType::Original)
        } else if given == processed {
            Some(ImageType::Processed)
        } else {
            None
        }
    }
}

/// A picture of a project: its kind, where it is stored, and its pixels.
#[derive(Clone, Debug)]
pub struct Image {
    /// The kind of this picture.
    pub _image_type: ImageType,
    /// Where the picture is stored.
    pub path: String,
    /// The pixels.
    pub data: PixelBuffer,
}

/// A pattern project: its name, the directory that holds its files, and
/// its original and processed pictures once they exist.
#[derive(Clone, Debug)]
pub struct Intarsia {
    /// The name of this project.
    pub name: String,
    /// The directory of the project's files.
    pub path: String,
    /// The picture the project was made from.
    pub original_image: Option<Image>,
    /// The finished pattern chart.
    pub processed_image: Option<Image>,
}

impl Intarsia {
    /// The stored path of the picture of the given kind, or
    /// `EmptyOriginal` / `EmptyProcessed` when the project has none.
    pub fn image_path(&self, image_type: ImageType) -> (r: Result<String, Error>)
        ensures
            image_type is Original ==> match self.original_image {
                Some(image) => r == Ok::<String, Error>(image.path),
                None => r == Err::<String, Error>(Error::EmptyOriginal),
            },
            image_type is Processed ==> match self.processed_image {
                Some(image) => r == Ok::<String, Error>(image.path),
                None => r == Err::<String, Error>(Error::EmptyProcessed),
            },
    {
        match image_type {
            ImageType::Original => match &self.original_image {
                Some(image) => Ok(image.path.clone()),
                None => Err(Error::EmptyOriginal),
            },
            ImageType::Processed => match &self.processed_image {
                Some(image) => Ok(image.path.clone()),
                None => Err(Error::EmptyProcessed),
            },
        }
    }
}

} // verus!

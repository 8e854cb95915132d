//! Which way up an image is meant to be shown.
//!
//! A camera stores the pixels as its sensor saw them and notes in the Exif
//! metadata how the picture is to be turned. The decoder does not turn it, so
//! the gallery does.

use vstd::prelude::*;
use crate::error::CommandError;
use crate::picture::load_from_memory;
use crate::picture::rotate180;
use crate::picture::rotate270;
use crate::picture::rotate90;
use crate::picture::Image;
use crate::picture::Picture;

verus! {

/// The Exif attributes of an image, as `exif` has parsed them.
#[verifier::external_type_specification]
#[verifier::external_body]
pub struct ExExif(exif::Exif);

/// One Exif attribute.
#[verifier::external_type_specification]
#[verifier::external_body]
pub struct ExField(exif::Field);

/// What parsed Exif data holds: its attributes of the TIFF kind, each under
/// the number of the image it belongs to (0 for the primary image) and the
/// number of its tag, and of each the unsigned integers of its value, none
/// where the value is of another type.
pub uninterp spec fn exif_fields(data: exif::Exif) -> Map<(nat, nat), Seq<u32>>;

/// What the value of an attribute holds: its unsigned integers, none where it
/// is of another type.
pub uninterp spec fn field_uints(field: exif::Field) -> Seq<u32>;

/// What `exif` makes of an image file: the attributes it parses out of the
/// bytes, or nothing where it cannot parse them.
pub uninterp spec fn parsed_exif(bytes: Seq<u8>) -> Option<Map<(nat, nat), Seq<u32>>>;

/// Under which image and tag the orientation of the primary image stands.
pub open spec fn orientation_key() -> (nat, nat) {
    (0, 0x112)
}

/// `exif::Reader::read_from_container` on a file held in memory; a failure to
/// parse comes back as `None`. The contract claims that what is parsed is a
/// function of the bytes alone, and gives that function its name.
#[verifier::external_body]
fn read_from_container(bytes: &[u8]) -> (r: Option<exif::Exif>)
    ensures
        match r {
            Some(data) => parsed_exif(bytes@) == Some(exif_fields(data)),
            None => parsed_exif(bytes@) is None,
        },
{
    exif::Reader::new().read_from_container(&mut std::io::Cursor::new(bytes)).ok()
}

/// `exif::Exif::get_field` for the orientation of the primary image. The
/// contract claims that the attribute is found where the data holds it, and
/// only there.
#[verifier::external_body]
fn get_orientation_field(data: &exif::Exif) -> (r: Option<&exif::Field>)
    ensures
        match r {
            Some(field) => exif_fields(*data).contains_key(orientation_key()) && field_uints(
                *field,
            ) == exif_fields(*data)[orientation_key()],
            None => !exif_fields(*data).contains_key(orientation_key()),
        },
{
    data.get_field(exif::Tag::Orientation, exif::In::PRIMARY)
}

/// `exif::Value::get_uint` for the first number of a field's value. The
/// contract claims that it is the first unsigned integer of the value, and
/// `None` where the value holds no unsigned integer.
#[verifier::external_body]
fn get_first_uint(field: &exif::Field) -> (r: Option<u32>)
    ensures
        r == if field_uints(*field).len() > 0 {
            Some(field_uints(*field)[0])
        } else {
            None
        },
{
    field.value.get_uint(0)
}

/// The orientation code of an image that is shown as it is stored. It is the
/// code of an image whose metadata gives none.
pub const AS_STORED: u32 = 1;

/// How far an image is turned, clockwise.
#[derive(Clone, Copy, Debug, PartialEq, Eq, Structural)]
pub enum Rotation {
    Upright,
    Quarter,
    Half,
    ThreeQuarters,
}

/// What reading the metadata of an image came to.
#[derive(Clone, Copy, Debug, PartialEq, Eq, Structural)]
pub enum Metadata {
    /// There is none, or it cannot be parsed.
    Unreadable,
    /// It does not give the orientation as a number.
    Silent,
    /// It gives this orientation code.
    Oriented(u32),
}

/// What parsed attributes say of the orientation: the first unsigned integer
/// of the orientation of the primary image, where there is one.
pub open spec fn metadata_of(parsed: Option<Map<(nat, nat), Seq<u32>>>) -> Metadata {
    match parsed {
        None => Metadata::Unreadable,
        Some(fields) => if fields.contains_key(orientation_key()) && fields[orientation_key()].len()
            > 0 {
            Metadata::Oriented(fields[orientation_key()][0])
        } else {
            Metadata::Silent
        },
    }
}

/// The orientation code that the metadata stands for: the code it gives, and
/// that of an image shown as stored where it gives none or cannot be read.
pub open spec fn orientation_code(metadata: Metadata) -> u32 {
    match metadata {
        Metadata::Unreadable => AS_STORED,
        Metadata::Silent => AS_STORED,
        Metadata::Oriented(code) => code,
    }
}

/// The turn that an orientation code asks for. A code other than 1, 3, 6 and
/// 8 asks for none.
pub open spec fn rotation_of(orientation: u32) -> Rotation {
    if orientation == 6 {
        Rotation::Quarter
    } else if orientation == 3 {
        Rotation::Half
    } else if orientation == 8 {
        Rotation::ThreeQuarters
    } else {
        Rotation::Upright
    }
}

impl Image {
    /// The image after the given turn.
    pub open spec fn turned(self, rotation: Rotation) -> Image {
        match rotation {
            Rotation::Upright => self,
            Rotation::Quarter => self.quarter_turn(),
            Rotation::Half => self.half_turn(),
            Rotation::ThreeQuarters => self.three_quarter_turn(),
        }
    }
}

/// A turn keeps an image well formed, and swaps its sides or keeps them.
pub proof fn lemma_turned(image: Image, rotation: Rotation)
    requires
        image.wf(),
    ensures
        image.turned(rotation).wf(),
        image.turned(Rotation::Half).width == image.width,
        image.turned(Rotation::Quarter).width == image.height,
        image.turned(Rotation::ThreeQuarters).width == image.height,
{
    assert(3 * image.width * image.height == 3 * image.height * image.width) by (nonlinear_arith);
}

/// The metadata of the image file `bytes`: what the attributes parsed out of
/// it say of the orientation.
pub fn read_metadata(bytes: &[u8]) -> (metadata: Metadata)
    ensures
        metadata == metadata_of(parsed_exif(bytes@)),
{
    match read_from_container(bytes) {
        Some(data) => match get_orientation_field(&data) {
            Some(field) => match get_first_uint(field) {
                Some(code) => Metadata::Oriented(code),
                None => Metadata::Silent,
            },
            None => Metadata::Silent,
        },
        None => Metadata::Unreadable,
    }
}

/// The orientation code that `metadata` stands for.
pub fn orientation_from(metadata: Metadata) -> (code: u32)
    ensures
        code == orientation_code(metadata),
{
    match metadata {
        Metadata::Unreadable => AS_STORED,
        Metadata::Silent => AS_STORED,
        Metadata::Oriented(code) => code,
    }
}

/// The orientation code of the image file `bytes`: the code that its metadata
/// gives, and that of an image shown as stored where the metadata is absent,
/// cannot be parsed or does not give the orientation. Metadata never fails
/// the caller.
pub fn image_orientation(bytes: &[u8]) -> (code: u32)
    ensures
        code == orientation_code(metadata_of(parsed_exif(bytes@))),
{
    orientation_from(read_metadata(bytes))
}

/// The turn that an orientation code asks for.
pub fn rotation_for(orientation: u32) -> (rotation: Rotation)
    ensures
        rotation == rotation_of(orientation),
{
    if orientation == 6 {
        Rotation::Quarter
    } else if orientation == 3 {
        Rotation::Half
    } else if orientation == 8 {
        Rotation::ThreeQuarters
    } else {
        Rotation::Upright
    }
}

/// `picture`, turned as the orientation code asks.
pub fn oriented(picture: Picture, orientation: u32) -> (turned: Picture)
    requires
        picture@.wf(),
    ensures
        turned@ == picture@.turned(rotation_of(orientation)),
        turned@.wf(),
{
    proof {
        lemma_turned(picture@, rotation_of(orientation));
    }
    match rotation_for(orientation) {
        Rotation::Upright => picture,
        Rotation::Quarter => rotate90(&picture),
        Rotation::Half => rotate180(&picture),
        Rotation::ThreeQuarters => rotate270(&picture),
    }
}

/// Decodes the image file `bytes` and turns the picture as the metadata of
/// the file asks, which is what `oriented` does with the code that
/// `image_orientation` gives. Fails with `ImageError` where the bytes cannot
/// be decoded. What a file decodes to depends on the machine, so of the
/// picture only its form is stated.
pub fn open_with_exif_rotation(bytes: &[u8]) -> (r: Result<Picture, CommandError>)
    ensures
        match r {
            Ok(picture) => picture@.wf(),
            Err(e) => e@ is ImageError,
        },
{
    let orientation: u32 = image_orientation(bytes);
    match load_from_memory(bytes) {
        Ok(picture) => Ok(oriented(picture, orientation)),
        Err(words) => Err(CommandError::ImageError(words)),
    }
}

} // verus!

//! What chunks and documents hold, as mathematical values.

use vstd::prelude::*;

use crate::outside::chunk::{object_references, renumbered_object};

verus! {

/// An indirect object: its number, and its text from the number up to the
/// start of the next object.
pub type Object = (i32, Seq<u8>);

/// What a chunk holds.
pub struct Content {
    /// The indirect objects, in the order in which they were written.
    pub objects: Seq<Object>,
    /// How many bytes the chunk takes.
    pub len: nat,
}

/// What a PDF file that is being written holds.
pub struct Document {
    /// Whether objects are padded to be easier to read.
    pub pretty: bool,
    /// The bytes before the first object.
    pub header: Seq<u8>,
    /// The indirect objects, in the order in which they were written.
    pub objects: Seq<Object>,
    /// The number of the document catalog that the trailer will name.
    pub catalog: Option<i32>,
    /// The number of the document information that the trailer will name.
    pub info: Option<i32>,
    /// The file identifier that the trailer will hold.
    pub file_id: Option<(Seq<u8>, Seq<u8>)>,
}

/// A value of the PDF format.
pub enum Value {
    /// An indirect reference to the object with this number.
    Ref(i32),
    /// A truth value.
    Bool(bool),
    /// A name.
    Name(Seq<char>),
    /// A text string.
    Text(Seq<char>),
    /// A string of bytes.
    Bytes(Seq<u8>),
    /// An array.
    Array(Seq<Value>),
    /// A dictionary, with its pairs in the order in which they are written.
    Dict(Seq<(Seq<char>, Value)>),
}

/// A pair of a dictionary.
pub type Pair = (Seq<char>, Value);

/// The decimal digits of a number.
pub open spec fn decimal(number: nat) -> Seq<char>
    decreases number,
{
    let digit = (('0' as int) + (number % 10) as int) as char;
    if number < 10 {
        seq![digit]
    } else {
        decimal(number / 10).push(digit)
    }
}

/// The header of a PDF file that nothing was written to: `%PDF-1.7`, and a
/// comment of four bytes that mark the file as binary.
pub open spec fn blank_header() -> Seq<u8> {
    seq![
        0x25u8, 0x50u8, 0x44u8, 0x46u8, 0x2Du8, 0x31u8, 0x2Eu8, 0x37u8, 0x0Au8,
        0x25u8, 0x80u8, 0x80u8, 0x80u8, 0x80u8, 0x0Au8, 0x0Au8,
    ]
}

/// A PDF file that nothing was written to.
pub open spec fn blank_document() -> Document {
    Document {
        pretty: true,
        header: blank_header(),
        objects: Seq::empty(),
        catalog: None,
        info: None,
        file_id: None,
    }
}

/// The numbers of the objects.
pub open spec fn numbers(objects: Seq<Object>) -> Seq<i32> {
    objects.map_values(|object: Object| object.0)
}

/// The texts of the objects, one after the other.
pub open spec fn texts(objects: Seq<Object>) -> Seq<u8>
    decreases objects.len(),
{
    if objects.len() == 0 {
        Seq::empty()
    } else {
        texts(objects.drop_last()) + objects.last().1
    }
}

/// Every number that occurs in the objects, in the order in which it is met:
/// the number of each object, followed by those that its text refers to.
pub open spec fn mentions(objects: Seq<Object>) -> Seq<i32>
    decreases objects.len(),
{
    if objects.len() == 0 {
        Seq::empty()
    } else {
        mentions(objects.drop_last()) + seq![objects.last().0] + object_references(
            objects.last().1,
        )
    }
}

/// The objects with every number replaced by what `map` gives for it. An
/// object that was started and never completed is left out.
pub open spec fn renumbered(objects: Seq<Object>, map: Map<i32, i32>, pretty: bool) -> Seq<Object>
    decreases objects.len(),
{
    if objects.len() == 0 {
        Seq::empty()
    } else {
        let before = renumbered(objects.drop_last(), map, pretty);
        let number = map[objects.last().0];
        match renumbered_object(objects.last().1, number, map, pretty) {
            Some(text) => before.push((number, text)),
            None => before,
        }
    }
}

/// The objects of all contents, one content after the other.
pub open spec fn all_objects(contents: Seq<Content>) -> Seq<Object>
    decreases contents.len(),
{
    if contents.len() == 0 {
        Seq::empty()
    } else {
        all_objects(contents.drop_last()) + contents.last().objects
    }
}

/// How many bytes the contents take together.
pub open spec fn total_len(contents: Seq<Content>) -> nat
    decreases contents.len(),
{
    if contents.len() == 0 {
        0
    } else {
        total_len(contents.drop_last()) + contents.last().len
    }
}

} // verus!

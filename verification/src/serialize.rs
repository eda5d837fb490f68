//! What is shared by everything that writes a part of the document.

use vstd::prelude::*;

use crate::configure::{Configuration, PdfVersion, ValidationError, Validator};
use crate::destinations::{NameEntry, NamedDestination};
use crate::embedded_files::{strictly_ascending, EmbeddedFiles};
use crate::reference::Ref;

verus! {

/// How the document is written.
#[derive(Clone, Copy, PartialEq, Eq, Structural, Debug)]
pub struct SerializeSettings {
    /// Whether the file shall hold ASCII characters only.
    pub ascii_compatible: bool,
    /// Whether XMP metadata is written.
    pub xmp_metadata: bool,
    /// The version of the format, and the standard to conform to.
    pub configuration: Configuration,
}

impl SerializeSettings {
    /// The version of the format.
    pub fn pdf_version(self) -> (version: PdfVersion)
        ensures
            version == self.configuration.version,
    {
        self.configuration.version
    }

    /// What the standard asks for.
    pub fn validator(self) -> (validator: Validator)
        ensures
            validator == self.configuration.validator,
    {
        self.configuration.validator
    }
}

/// What belongs to the document as a whole.
pub struct GlobalObjects {
    /// The named destinations, in no particular order, and the references to
    /// what they stand for.
    pub named_destinations: Vec<(NamedDestination, Ref)>,
    /// The embedded files.
    pub embedded_files: EmbeddedFiles,
}

impl GlobalObjects {
    /// Hands out the named destinations, and keeps none.
    pub fn take_named_destinations(&mut self) -> (taken: Vec<(NamedDestination, Ref)>)
        ensures
            taken == old(self).named_destinations,
            final(self).named_destinations@ == Seq::<(NamedDestination, Ref)>::empty(),
            final(self).embedded_files == old(self).embedded_files,
    {
        let mut taken: Vec<(NamedDestination, Ref)> = Vec::new();
        std::mem::swap(&mut taken, &mut self.named_destinations);
        taken
    }

    /// Hands out the embedded files, and keeps none.
    pub fn take_embedded_files(&mut self) -> (taken: EmbeddedFiles)
        ensures
            taken == old(self).embedded_files,
            strictly_ascending(taken@),
            final(self).embedded_files@ == Seq::<NameEntry>::empty(),
            final(self).named_destinations == old(self).named_destinations,
    {
        self.embedded_files.take()
    }
}

/// The state of a document that is being written.
pub struct SerializeContext {
    /// How the document is written.
    pub settings: SerializeSettings,
    /// What belongs to the document as a whole.
    pub global_objects: GlobalObjects,
    /// The shortcomings that were found so far.
    pub validation_errors: Vec<ValidationError>,
    /// The next reference that was not given away.
    pub cur_ref: Ref,
}

impl SerializeContext {
    /// The context of a document that nothing was written of.
    pub fn new(settings: SerializeSettings) -> (sc: SerializeContext)
        ensures
            sc.settings == settings,
            sc.global_objects.named_destinations@ == Seq::<(NamedDestination, Ref)>::empty(),
            sc.global_objects.embedded_files@ == Seq::<NameEntry>::empty(),
            sc.validation_errors@ == Seq::<ValidationError>::empty(),
            sc.cur_ref@ == 1,
    {
        SerializeContext {
            settings,
            global_objects: GlobalObjects {
                named_destinations: Vec::new(),
                embedded_files: EmbeddedFiles::new(),
            },
            validation_errors: Vec::new(),
            cur_ref: Ref::new(1),
        }
    }

    /// How the document is written.
    pub fn serialize_settings(&self) -> (settings: SerializeSettings)
        ensures
            settings == self.settings,
    {
        self.settings
    }

    /// A reference that was not given away before.
    pub fn new_ref(&mut self) -> (r: Ref)
        requires
            old(self).cur_ref@ < i32::MAX,
        ensures
            r == old(self).cur_ref,
            final(self).cur_ref@ == old(self).cur_ref@ + 1,
            *final(self) == (SerializeContext { cur_ref: final(self).cur_ref, ..*old(self) }),
    {
        self.cur_ref.bump()
    }

    /// Notes down a shortcoming of the document.
    pub fn register_validation_error(&mut self, error: ValidationError)
        ensures
            final(self).validation_errors@ == old(self).validation_errors@.push(error),
            *final(self) == (SerializeContext {
                validation_errors: final(self).validation_errors,
                ..*old(self)
            }),
    {
        self.validation_errors.push(error);
    }

    /// Notes down shortcomings of the document, in the order given.
    pub fn register_validation_errors(&mut self, errors: Vec<ValidationError>)
        ensures
            final(self).validation_errors@ == old(self).validation_errors@ + errors@,
            *final(self) == (SerializeContext {
                validation_errors: final(self).validation_errors,
                ..*old(self)
            }),
    {
        let mut errors = errors;
        self.validation_errors.append(&mut errors);
    }
}

} // verus!

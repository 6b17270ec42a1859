//! The two numbers of a request, the range each must lie in, and the
//! parameters that the pixel transform gets for them.
//!
//! A request asks for a brightness from zero up, with one half leaving the
//! image as it is, and for a contrast above zero and up to one, with one
//! leaving it as it is. The transform multiplies each sample by a scale and
//! adds an offset, so it leaves the image alone at scale one and offset zero.
//! The offset is the reciprocal of the contrast, less one, so a contrast of
//! zero has none and is out of range. All four numbers are binary64 patterns.
//!
//! The ranges are kept by comparison, and a NaN is below nothing and above
//! nothing: it is let through, and so is an infinite brightness. What the
//! parameters then are, and when one of them is not finite, is stated by
//! `lemma_parameters_in_range`.

use vstd::prelude::*;
use vstd::string::*;
use crate::binary64::{ZERO, HALF, ONE, INFINITY, SIGN_BIT, lt, less_than, is_nan, is_finite, is_negative, magnitude, exponent_field, lemma_weight_increases, lemma_weight_zero};
use crate::arithmetic::{LARGEST_WITHOUT_RECIPROCAL, spec_twice, spec_reciprocal, spec_less_one, twice, reciprocal, less_one, lemma_neutral_values, lemma_twice_doubles, lemma_twice_overflows, lemma_reciprocal_range, lemma_less_one_range};

verus! {

/// One of the two numbers of a request.
#[derive(Debug, Clone, Copy, PartialEq, Eq, Structural)]
pub enum Field {
    Brightness,
    Contrast,
}

impl Field {
    /// The field's name as a complaint writes it.
    pub open spec fn spec_name(self) -> Seq<char> {
        match self {
            Field::Brightness => "brightness"@,
            Field::Contrast => "contrast"@,
        }
    }

    /// The field's name.
    pub fn name(&self) -> (text: &'static str)
        ensures
            text@ == self.spec_name(),
    {
        match self {
            Field::Brightness => "brightness",
            Field::Contrast => "contrast",
        }
    }

    /// Whether the field takes the value. A brightness must not be below
    /// zero. A contrast must not be below zero, nor above one, nor be a zero
    /// of either sign.
    pub open spec fn admits(self, value: u64) -> bool {
        match self {
            Field::Brightness => !lt(value, ZERO),
            Field::Contrast => !lt(value, ZERO) && !lt(ONE, value) && magnitude(value) != 0,
        }
    }

    /// Whether the field takes the value.
    pub fn takes(&self, value: u64) -> (r: bool)
        ensures
            r == self.admits(value),
    {
        match self {
            Field::Brightness => !less_than(value, ZERO),
            Field::Contrast => !less_than(value, ZERO) && !less_than(ONE, value) && value != ZERO
                && value != SIGN_BIT,
        }
    }

    /// The range that the field allows, as a complaint writes it.
    pub open spec fn spec_allowed_range(self) -> Seq<char> {
        match self {
            Field::Brightness => "[0.0; +inf]"@,
            Field::Contrast => "(0.0; 1.0]"@,
        }
    }

    /// The range that the field allows.
    pub fn allowed_range(&self) -> (text: &'static str)
        ensures
            text@ == self.spec_allowed_range(),
    {
        match self {
            Field::Brightness => "[0.0; +inf]",
            Field::Contrast => "(0.0; 1.0]",
        }
    }
}

/// A number outside its range: which field, and the pattern it held. The
/// range itself goes with the field.
#[derive(Debug, Clone, Copy, PartialEq, Eq, Structural)]
pub struct RangeViolation {
    pub field: Field,
    pub value: u64,
}

impl RangeViolation {
    /// The complaint about a value whose decimal form is `value_text`.
    pub open spec fn spec_message(self, value_text: Seq<char>) -> Seq<char> {
        "Bad "@ + self.field.spec_name() + " value: "@ + value_text + ", allowed range is "@
            + self.field.spec_allowed_range()
    }

    /// The complaint for the client. The caller writes the value in decimal,
    /// which takes floating point; the sentence around it is made here.
    pub fn message(&self, value_text: &str) -> (text: String)
        ensures
            text@ == self.spec_message(value_text@),
    {
        let mut text = String::from_str("Bad ");
        text.append(self.field.name());
        text.append(" value: ");
        text.append(value_text);
        text.append(", allowed range is ");
        text.append(self.field.allowed_range());
        text
    }
}

/// Whether `word` stands somewhere in `text`.
pub open spec fn names(text: Seq<char>, word: Seq<char>) -> bool {
    exists|i: int|
        0 <= i && i + word.len() <= text.len() && #[trigger] text.subrange(i, i + word.len() as int)
            == word
}

/// A complaint names its field, however the value was written.
pub proof fn lemma_message_names_field(bad: RangeViolation, value_text: Seq<char>)
    ensures
        names(bad.spec_message(value_text), bad.field.spec_name()),
{
    reveal_strlit("Bad ");
    let text = bad.spec_message(value_text);
    let word = bad.field.spec_name();
    assert(text.subrange(4, 4 + word.len() as int) =~= word);
}

/// Scale and offset for the pixel transform.
#[derive(Debug, Clone, Copy, PartialEq, Eq, Structural)]
pub struct TransformParameters {
    pub scale: u64,
    pub offset: u64,
}

/// Brightness and contrast as the client sent them.
#[derive(Debug, Clone, Copy, PartialEq, Eq, Structural)]
pub struct Request {
    pub brightness: u64,
    pub contrast: u64,
}

impl Request {
    /// What is wrong with the request, if anything: a brightness out of its
    /// range, or else a contrast out of its range.
    pub open spec fn rejection(self) -> Option<RangeViolation> {
        if !Field::Brightness.admits(self.brightness) {
            Some(RangeViolation { field: Field::Brightness, value: self.brightness })
        } else if !Field::Contrast.admits(self.contrast) {
            Some(RangeViolation { field: Field::Contrast, value: self.contrast })
        } else {
            None
        }
    }

    /// Whether both numbers are in range.
    pub open spec fn acceptable(self) -> bool {
        self.rejection() is None
    }

    /// Checks the ranges, brightness first.
    pub fn validate(&self) -> (r: Result<(), RangeViolation>)
        ensures
            r == (match self.rejection() {
                Some(bad) => Err::<(), RangeViolation>(bad),
                None => Ok(()),
            }),
    {
        if !Field::Brightness.takes(self.brightness) {
            return Err(RangeViolation { field: Field::Brightness, value: self.brightness });
        }
        if !Field::Contrast.takes(self.contrast) {
            return Err(RangeViolation { field: Field::Contrast, value: self.contrast });
        }
        Ok(())
    }

    /// The transform's parameters: the scale is `2 * brightness` and the
    /// offset is `1 / contrast - 1`, each operation rounded as binary64
    /// arithmetic rounds it.
    pub open spec fn spec_normalize(self) -> TransformParameters {
        TransformParameters {
            scale: spec_twice(self.brightness),
            offset: spec_less_one(spec_reciprocal(self.contrast)),
        }
    }

    /// Maps a request that is in range to the transform's parameters.
    pub fn normalize(&self) -> (parameters: TransformParameters)
        requires
            self.acceptable(),
        ensures
            parameters == self.spec_normalize(),
    {
        proof {
            lemma_contrast_in_range(self.contrast);
        }
        let inverse = reciprocal(self.contrast);
        TransformParameters { scale: twice(self.brightness), offset: less_one(inverse) }
    }
}

/// A contrast in range is a positive number up to one, or a NaN.
pub proof fn lemma_contrast_in_range(contrast: u64)
    ensures
        Field::Contrast.admits(contrast) <==> is_nan(contrast) || 0 < contrast <= ONE,
{
    if !is_nan(contrast) {
        lemma_weight_zero(contrast);
        if magnitude(contrast) < ONE {
            lemma_weight_increases(magnitude(contrast), ONE);
        }
        if ONE < magnitude(contrast) {
            lemma_weight_increases(ONE, magnitude(contrast));
        }
    }
}

/// A contrast of zero, of either sign, is out of range whatever the
/// brightness is, so it gets no parameters.
pub proof fn lemma_zero_contrast_is_rejected(request: Request)
    requires
        magnitude(request.contrast) == 0,
    ensures
        !request.acceptable(),
        Field::Brightness.admits(request.brightness) ==> request.rejection() == Some(
            RangeViolation { field: Field::Contrast, value: request.contrast },
        ),
{
}

/// What the parameters of a request in range are.
///
/// The scale is a NaN exactly where the brightness is one. It is never below
/// zero, and it is finite where twice the brightness is a binary64 number:
/// below a brightness of 2^1023, from which on it is infinite. The offset is
/// a NaN exactly where the contrast is one. It is never negative, and it is
/// finite for the contrasts above 2^-1024, whose reciprocal is a binary64
/// number; from there down it is infinite.
pub proof fn lemma_parameters_in_range(request: Request)
    requires
        request.acceptable(),
    ensures
        is_nan(request.spec_normalize().scale) <==> is_nan(request.brightness),
        !lt(request.spec_normalize().scale, ZERO),
        is_finite(request.spec_normalize().scale) <==> exponent_field(request.brightness) < 2046,
        is_nan(request.spec_normalize().offset) <==> is_nan(request.contrast),
        !is_negative(request.spec_normalize().offset),
        is_finite(request.spec_normalize().offset) <==> !is_nan(request.contrast)
            && request.contrast > LARGEST_WITHOUT_RECIPROCAL,
{
    let b = request.brightness;
    let c = request.contrast;
    if is_finite(b) {
        if exponent_field(b) < 2046 {
            lemma_twice_doubles(b);
        } else {
            lemma_twice_overflows(b);
        }
        lemma_weight_zero(b);
    }
    lemma_contrast_in_range(c);
    if !is_nan(c) {
        lemma_reciprocal_range(c);
        let q = spec_reciprocal(c);
        if q < INFINITY {
            lemma_less_one_range(q);
        }
    }
}

/// The neutral request, a brightness of one half and a contrast of one, is in
/// range and maps to the transform that changes nothing: scale one, offset
/// zero.
pub proof fn lemma_neutral_request_is_identity()
    ensures
        (Request { brightness: HALF, contrast: ONE }).acceptable(),
        (Request { brightness: HALF, contrast: ONE }).spec_normalize() == (TransformParameters {
            scale: ONE,
            offset: ZERO,
        }),
{
    lemma_neutral_values();
    lemma_contrast_in_range(ONE);
}

} // verus!

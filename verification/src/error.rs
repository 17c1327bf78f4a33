//! The ways in which loading or running the model can fail.
use vstd::prelude::*;
use crate::names::{decimal, decimal_text};

verus! {

/// Why the model could not be loaded or run.
#[derive(Debug)]
pub enum ModelError {
    /// The tensor library refused an operation.
    Tensor(candle_core::Error),
    /// A tensor would have more elements than one allocation can hold.
    TooLarge,
    /// The elements of a tensor are not floating-point numbers. Integers are not computed with: their sums
    /// and products overflow.
    NotFloating,
    /// The elements of a tensor cannot be dealt out to rows of the given length.
    RowLength,
    /// A tensor does not have the number of dimensions that it should.
    Rank,
    /// The shapes or types of two tensors do not go together.
    Shapes,
    /// The elements of a tensor do not lie in row-major order without gaps.
    NotPacked,
    /// There is not one offset for each sequence.
    Offsets,
    /// Paged attention was asked for, which the model does not support.
    PagedAttention,
    /// The metadata does not name an architecture.
    MissingArchitecture,
    /// The metadata names this architecture, not the one expected.
    WrongArchitecture(String),
    /// The metadata lacks a required key.
    MissingKeys,
    /// The value of this key is absent or of the wrong type.
    InvalidValue(String),
    /// The layers are not those that the properties describe.
    WrongLayers,
    /// The convolution state does not reach back as far as the kernel.
    ShortConvState,
}

/// Why a pass could not go on.
#[derive(Debug)]
pub enum PassError {
    /// The cache of this layer is missing or not of the layer's kind.
    LayerCacheMismatch(usize),
    /// The reply does not answer what was asked.
    UnexpectedReply,
    /// A step failed.
    Failed(ModelError),
}

impl ModelError {
    /// `text` says what is wrong. The words for an error of the tensor library are its own.
    pub open spec fn says(self, text: Seq<char>) -> bool {
        match self {
            ModelError::Tensor(_) => true,
            ModelError::TooLarge => text == "A tensor has too many elements."@,
            ModelError::NotFloating => text == "A tensor does not hold floating-point numbers."@,
            ModelError::RowLength => text
                == "The elements of a tensor do not make up whole rows."@,
            ModelError::Rank => text == "A tensor has an unexpected number of dimensions."@,
            ModelError::Shapes => text == "The shapes of two tensors do not go together."@,
            ModelError::NotPacked => text == "A tensor is not contiguous."@,
            ModelError::Offsets => text == "There is not one offset for each sequence."@,
            ModelError::PagedAttention => text
                == "Qwen3.5 GGUF does not support PagedAttention yet."@,
            ModelError::MissingArchitecture => text == "The metadata names no architecture."@,
            ModelError::WrongArchitecture(arch) => text == "Expected `qwen35` architecture, got `"@
                + arch@ + "`."@,
            ModelError::MissingKeys => text == "The metadata lacks a required key."@,
            ModelError::InvalidValue(key) => text == "The metadata has no valid value for `"@
                + key@ + "`."@,
            ModelError::WrongLayers => text == "The layers are not those of the model."@,
            ModelError::ShortConvState => text
                == "The convolution state is shorter than the kernel."@,
        }
    }

    /// What is wrong, in words.
    pub fn message(&self) -> (r: String)
        ensures
            self.says(r@),
    {
        match self {
            ModelError::Tensor(e) => e.to_string(),
            ModelError::TooLarge => "A tensor has too many elements.".to_owned(),
            ModelError::NotFloating => {
                "A tensor does not hold floating-point numbers.".to_owned()
            },
            ModelError::RowLength => {
                "The elements of a tensor do not make up whole rows.".to_owned()
            },
            ModelError::Rank => "A tensor has an unexpected number of dimensions.".to_owned(),
            ModelError::Shapes => "The shapes of two tensors do not go together.".to_owned(),
            ModelError::NotPacked => "A tensor is not contiguous.".to_owned(),
            ModelError::Offsets => "There is not one offset for each sequence.".to_owned(),
            ModelError::PagedAttention => {
                "Qwen3.5 GGUF does not support PagedAttention yet.".to_owned()
            },
            ModelError::MissingArchitecture => "The metadata names no architecture.".to_owned(),
            ModelError::WrongArchitecture(arch) => {
                let mut s = "Expected `qwen35` architecture, got `".to_owned();
                s.append(arch.as_str());
                s.append("`.");
                s
            },
            ModelError::MissingKeys => "The metadata lacks a required key.".to_owned(),
            ModelError::InvalidValue(key) => {
                let mut s = "The metadata has no valid value for `".to_owned();
                s.append(key.as_str());
                s.append("`.");
                s
            },
            ModelError::WrongLayers => "The layers are not those of the model.".to_owned(),
            ModelError::ShortConvState => {
                "The convolution state is shorter than the kernel.".to_owned()
            },
        }
    }
}

impl PassError {
    /// What is wrong, in words.
    pub fn message(&self) -> (r: String)
        ensures
            match self {
                PassError::LayerCacheMismatch(layer) => r@
                    == "Qwen3.5 GGUF layer/cache type mismatch at layer "@ + decimal(*layer as nat),
                PassError::UnexpectedReply => r@ == "The reply does not answer the request."@,
                PassError::Failed(e) => e.says(r@),
            },
    {
        match self {
            PassError::LayerCacheMismatch(layer) => {
                let mut s = "Qwen3.5 GGUF layer/cache type mismatch at layer ".to_owned();
                let number = decimal_text(*layer);
                s.append(number.as_str());
                s
            },
            PassError::UnexpectedReply => "The reply does not answer the request.".to_owned(),
            PassError::Failed(e) => e.message(),
        }
    }
}

/// What the errors that a user meets say.
pub proof fn law_messages(e: ModelError, p: PassError, r: String, s: String)
    requires
        call_ensures(ModelError::message, (&e,), r),
        call_ensures(PassError::message, (&p,), s),
    ensures
        e is PagedAttention ==> r@ == "Qwen3.5 GGUF does not support PagedAttention yet."@,
        e is WrongArchitecture ==> r@ == "Expected `qwen35` architecture, got `"@
            + e->WrongArchitecture_0@ + "`."@,
        e is InvalidValue ==> r@ == "The metadata has no valid value for `"@ + e->InvalidValue_0@
            + "`."@,
        p is LayerCacheMismatch ==> s@ == "Qwen3.5 GGUF layer/cache type mismatch at layer "@
            + decimal(p->LayerCacheMismatch_0 as nat),
        p is Failed && p->Failed_0 is PagedAttention ==> s@
            == "Qwen3.5 GGUF does not support PagedAttention yet."@,
{
}

} // verus!

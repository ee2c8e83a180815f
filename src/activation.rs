use vstd::prelude::*;
use crate::text::str_eq;

verus! {

/// Numeric code of the sigmoid-like activation.
pub const TYPE_SIGMOID: u8 = 0;
/// Numeric code of the tanh-like activation.
pub const TYPE_TANH: u8 = 1;

/// The two activation functions a gate can use.
#[derive(PartialEq, Eq, Structural, Clone, Copy, Debug)]
pub enum ActivationType {
    Sigmoid,
    Tanh,
}

/// Text tag of the sigmoid-like activation.
pub open spec fn sigmoid_tag() -> Seq<char> {
    "sigmoid"@
}

/// Text tag of the tanh-like activation.
pub open spec fn tanh_tag() -> Seq<char> {
    "tanh"@
}

impl ActivationType {
    pub open spec fn code_spec(self) -> u8 {
        match self {
            ActivationType::Sigmoid => TYPE_SIGMOID,
            ActivationType::Tanh => TYPE_TANH,
        }
    }

    pub open spec fn tag_spec(self) -> Seq<char> {
        match self {
            ActivationType::Sigmoid => sigmoid_tag(),
            ActivationType::Tanh => tanh_tag(),
        }
    }

    /// The numeric code of this activation.
    pub fn code(&self) -> (r: u8)
        ensures
            r == self.code_spec(),
    {
        match self {
            ActivationType::Sigmoid => TYPE_SIGMOID,
            ActivationType::Tanh => TYPE_TANH,
        }
    }

    /// The activation with numeric code `code`, if there is one.
    pub fn from_code(code: u8) -> (r: Option<ActivationType>)
        ensures
            r == (if code == TYPE_SIGMOID {
                Some(ActivationType::Sigmoid)
            } else if code == TYPE_TANH {
                Some(ActivationType::Tanh)
            } else {
                None
            }),
    {
        if code == TYPE_SIGMOID {
            Some(ActivationType::Sigmoid)
        } else if code == TYPE_TANH {
            Some(ActivationType::Tanh)
        } else {
            None
        }
    }
}

/// The activation of a gate, selected by its tag.
#[derive(PartialEq, Eq, Structural, Clone, Copy, Debug)]
pub struct Activation {
    pub act_type: ActivationType,
}

impl Activation {
    /// The activation with numeric code `activation_type`; `None` for an unknown code.
    pub fn new(activation_type: u8) -> (r: Option<Activation>)
        ensures
            activation_type < 2 <==> r.is_some(),
            r.is_some() ==> r.unwrap().act_type.code_spec() == activation_type,
    {
        match ActivationType::from_code(activation_type) {
            Some(t) => Some(Activation { act_type: t }),
            None => None,
        }
    }

    /// The text tag: `sigmoid` or `tanh`.
    pub fn to_string(&self) -> (r: String)
        ensures
            r@ == self.act_type.tag_spec(),
    {
        match self.act_type {
            ActivationType::Sigmoid => String::from_str("sigmoid"),
            ActivationType::Tanh => String::from_str("tanh"),
        }
    }

    /// The activation named by a text tag; `None` for any other text.
    pub fn from_string(s: &str) -> (r: Option<Activation>)
        ensures
            r == (if s@ == sigmoid_tag() {
                Some(Activation { act_type: ActivationType::Sigmoid })
            } else if s@ == tanh_tag() {
                Some(Activation { act_type: ActivationType::Tanh })
            } else {
                None
            }),
    {
        if str_eq(s, "sigmoid") {
            Some(Activation { act_type: ActivationType::Sigmoid })
        } else if str_eq(s, "tanh") {
            Some(Activation { act_type: ActivationType::Tanh })
        } else {
            None
        }
    }
}

/// Reading back the tag of an activation gives the same activation.
pub proof fn lemma_tag_round_trip(a: Activation)
    ensures
        a.act_type.tag_spec() == sigmoid_tag() <==> a.act_type == ActivationType::Sigmoid,
        a.act_type.tag_spec() == tanh_tag() <==> a.act_type == ActivationType::Tanh,
{
    reveal_strlit("sigmoid");
    reveal_strlit("tanh");
    assert(sigmoid_tag().len() != tanh_tag().len());
}

} // verus!

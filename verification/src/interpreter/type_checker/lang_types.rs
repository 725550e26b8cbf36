use vstd::prelude::*;

verus! {

/// The static type of a name.
#[derive(Clone, PartialEq)]
pub enum LanguageType {
    /// A bitstring of the given length.
    Bits(usize),
    Function(FunctionType),
    /// An oracle `|x, y>` with the given register sizes.
    Oracle(usize, usize),
    Circuit,
}

#[derive(Clone, PartialEq)]
pub struct FunctionType {
    /// The length of each input bitstring, in order.
    pub input: Vec<usize>,
    pub output: usize,
}

pub enum SpecLanguageType {
    Bits(usize),
    Function(Seq<usize>, usize),
    Oracle(usize, usize),
    Circuit,
}

impl View for LanguageType {
    type V = SpecLanguageType;

    open spec fn view(&self) -> SpecLanguageType {
        match self {
            LanguageType::Bits(n) => SpecLanguageType::Bits(*n),
            LanguageType::Function(f) => SpecLanguageType::Function(f.input@, f.output),
            LanguageType::Oracle(x, y) => SpecLanguageType::Oracle(*x, *y),
            LanguageType::Circuit => SpecLanguageType::Circuit,
        }
    }
}

/// The name of the kind of a type, as error messages show it.
pub open spec fn type_label(t: SpecLanguageType) -> Seq<char> {
    match t {
        SpecLanguageType::Bits(_) => "bits"@,
        SpecLanguageType::Function(_, _) => "function"@,
        SpecLanguageType::Oracle(_, _) => "oracle"@,
        SpecLanguageType::Circuit => "circuit"@,
    }
}

impl LanguageType {
    pub fn label(&self) -> (res: String)
        ensures
            res@ == type_label(self@),
    {
        match self {
            LanguageType::Bits(_) => "bits".to_owned(),
            LanguageType::Function(_) => "function".to_owned(),
            LanguageType::Oracle(_, _) => "oracle".to_owned(),
            LanguageType::Circuit => "circuit".to_owned(),
        }
    }
}

/// A copy of a type with the same model.
pub fn copy_type(t: &LanguageType) -> (res: LanguageType)
    ensures
        res@ == t@,
{
    match t {
        LanguageType::Bits(n) => LanguageType::Bits(*n),
        LanguageType::Function(f) => {
            let input = f.input.clone();
            assert(input@ =~= f.input@);
            LanguageType::Function(FunctionType { input, output: f.output })
        },
        LanguageType::Oracle(x, y) => LanguageType::Oracle(*x, *y),
        LanguageType::Circuit => LanguageType::Circuit,
    }
}

} // verus!

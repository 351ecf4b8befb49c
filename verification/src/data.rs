use vstd::prelude::*;

verus! {

/// The mathematical model of a runtime datum.
pub enum DataModel {
    Boolean(bool),
    Str(Seq<char>),
}

/// A runtime datum: the language data the core copies around.
/// The core never inspects a datum beyond copying and comparing it.
#[derive(Clone, Debug, PartialEq, Eq)]
pub enum Data {
    Boolean(bool),
    Str(String),
}

impl View for Data {
    type V = DataModel;

    open spec fn view(&self) -> DataModel {
        match self {
            Data::Boolean(b) => DataModel::Boolean(*b),
            Data::Str(s) => DataModel::Str(s@),
        }
    }
}

impl Data {
    /// An independent copy of the datum, denoting the same value.
    pub fn duplicate(&self) -> (d: Data)
        ensures
            d@ == self@,
    {
        match self {
            Data::Boolean(b) => Data::Boolean(*b),
            Data::Str(s) => Data::Str(s.clone()),
        }
    }
}

/// The models of a sequence of runtime data.
pub open spec fn data_models(s: Seq<Data>) -> Seq<DataModel> {
    s.map_values(|d: Data| d@)
}

} // verus!

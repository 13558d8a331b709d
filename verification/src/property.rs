//! One tagged line of a contact, and its mathematical view.

use vstd::prelude::*;

verus! {

/// A parameter of a property: its name and its values, in source order.
pub type Param = (String, Vec<String>);

/// The view of a parameter.
pub type ParamView = (Seq<char>, Seq<Seq<char>>);

/// One tagged line of a contact.
#[derive(Debug, Clone)]
pub struct Property {
    /// The tag, in the case the source gave it.
    pub name: String,
    /// The parameters, in source order; `None` where the line has none.
    pub params: Option<Vec<Param>>,
    /// The value; `None` where the line has none.
    pub value: Option<String>,
}

/// What a property is, as plain sequences of characters.
pub struct PropertyView {
    pub name: Seq<char>,
    pub params: Option<Seq<ParamView>>,
    pub value: Option<Seq<char>>,
}

/// The texts of a list of strings.
pub open spec fn texts_of(values: Seq<String>) -> Seq<Seq<char>> {
    values.map_values(|value: String| value@)
}

/// The view of one parameter.
pub open spec fn param_view(param: Param) -> ParamView {
    (param.0@, texts_of(param.1@))
}

/// The views of a parameter list.
pub open spec fn params_view(params: Seq<Param>) -> Seq<ParamView> {
    params.map_values(|param: Param| param_view(param))
}

/// The view of an optional parameter list.
pub open spec fn params_option_view(params: Option<Vec<Param>>) -> Option<Seq<ParamView>> {
    match params {
        Some(list) => Some(params_view(list@)),
        None => None,
    }
}

impl View for Property {
    type V = PropertyView;

    open spec fn view(&self) -> PropertyView {
        PropertyView {
            name: self.name@,
            params: params_option_view(self.params),
            value: match self.value {
                Some(value) => Some(value@),
                None => None,
            },
        }
    }
}

/// The views of a list of properties.
pub open spec fn properties_view(properties: Seq<Property>) -> Seq<PropertyView> {
    properties.map_values(|property: Property| property@)
}

} // verus!

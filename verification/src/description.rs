//! The description string that stands for a property's parameters.

use vstd::prelude::*;
use vstd::string::*;
use crate::property::{param_view, params_option_view, params_view, texts_of, Param, ParamView};

verus! {

/// The values of one parameter, joined by `-`.
pub open spec fn joined_values(values: Seq<Seq<char>>) -> Seq<char>
    decreases values.len(),
{
    if values.len() == 0 {
        Seq::empty()
    } else if values.len() == 1 {
        values[0]
    } else {
        joined_values(values.drop_last()) + seq!['-'] + values.last()
    }
}

/// One parameter as text: its name, `=`, its joined values, and a closing comma.
pub open spec fn param_text(param: ParamView) -> Seq<char> {
    param.0 + seq!['='] + joined_values(param.1) + seq![',']
}

/// The texts of all parameters, in source order, one after the other.
pub open spec fn params_text(params: Seq<ParamView>) -> Seq<char>
    decreases params.len(),
{
    if params.len() == 0 {
        Seq::empty()
    } else {
        params_text(params.drop_last()) + param_text(params.last())
    }
}

/// The description of a parameter list: nothing for an absent or empty list,
/// else the text of its parameters.
pub open spec fn description_of(params: Option<Seq<ParamView>>) -> Option<Seq<char>> {
    match params {
        Some(list) => if list.len() > 0 {
            Some(params_text(list))
        } else {
            None
        },
        None => None,
    }
}

/// Joins the values of one parameter by `-`.
pub fn join_values(values: &Vec<String>) -> (joined: String)
    ensures
        joined@ == joined_values(texts_of(values@)),
{
    let mut joined = String::new();
    let mut i: usize = 0;
    while i < values.len()
        invariant
            i <= values.len(),
            joined@ == joined_values(texts_of(values@).take(i as int)),
        decreases values.len() - i,
    {
        proof {
            reveal_strlit("-");
            let all = texts_of(values@);
            assert(all.take(i + 1).drop_last() == all.take(i as int));
            assert(all.take(i + 1).last() == values@[i as int]@);
        }
        if i > 0 {
            joined.append("-");
        }
        joined.append(values[i].as_str());
        i += 1;
    }
    proof {
        let all = texts_of(values@);
        assert(all.take(values.len() as int) == all);
    }
    joined
}

/// Synthesizes the description of a property's parameters: `None` for an
/// absent or empty list, else for each parameter, in source order, its name,
/// `=`, its values joined by `-`, and a comma.
pub fn synthesize_description(params: &Option<Vec<Param>>) -> (description: Option<String>)
    ensures
        match description {
            Some(text) => description_of(params_option_view(*params)) == Some(text@),
            None => description_of(params_option_view(*params)) is None,
        },
{
    match params {
        Some(list) => {
            if list.len() == 0 {
                return None;
            }
            let mut text = String::new();
            let mut i: usize = 0;
            while i < list.len()
                invariant
                    i <= list.len(),
                    text@ == params_text(params_view(list@).take(i as int)),
                decreases list.len() - i,
            {
                proof {
                    reveal_strlit("=");
                    reveal_strlit(",");
                    let all = params_view(list@);
                    assert(all.take(i + 1).drop_last() == all.take(i as int));
                    assert(all.take(i + 1).last() == param_view(list@[i as int]));
                }
                let joined = join_values(&list[i].1);
                text.append(list[i].0.as_str());
                text.append("=");
                text.append(joined.as_str());
                text.append(",");
                i += 1;
            }
            proof {
                let all = params_view(list@);
                assert(all.take(list.len() as int) == all);
            }
            Some(text)
        },
        None => None,
    }
}

} // verus!

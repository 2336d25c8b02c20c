//! iCal properties that the codec does not interpret and keeps verbatim.

use vstd::prelude::*;

verus! {

/// A property line: its name, its parameters (each with its values) in source order, and its
/// value if any.
#[derive(Debug)]
pub struct Property {
    pub name: String,
    pub params: Option<Vec<(String, Vec<String>)>>,
    pub value: Option<String>,
}

/// The text of a list of strings.
pub open spec fn strings_view(v: Seq<String>) -> Seq<Seq<char>> {
    v.map_values(|s: String| s@)
}

/// The text of an optional string.
pub open spec fn opt_string_view(o: Option<String>) -> Option<Seq<char>> {
    match o {
        Some(s) => Some(s@),
        None => None,
    }
}

/// The text of a parameter.
pub open spec fn param_view(p: (String, Vec<String>)) -> (Seq<char>, Seq<Seq<char>>) {
    (p.0@, strings_view(p.1@))
}

pub struct PropertyView {
    pub name: Seq<char>,
    pub params: Option<Seq<(Seq<char>, Seq<Seq<char>>)>>,
    pub value: Option<Seq<char>>,
}

impl View for Property {
    type V = PropertyView;

    open spec fn view(&self) -> PropertyView {
        PropertyView {
            name: self.name@,
            params: match self.params {
                Some(v) => Some(v@.map_values(|p: (String, Vec<String>)| param_view(p))),
                None => None,
            },
            value: opt_string_view(self.value),
        }
    }
}

/// The text of a list of properties.
pub open spec fn properties_view(v: Seq<Property>) -> Seq<PropertyView> {
    v.map_values(|p: Property| p@)
}

fn clone_param(p: &(String, Vec<String>)) -> (r: (String, Vec<String>))
    ensures
        param_view(r) == param_view(*p),
{
    let values = p.1.clone();
    assert(strings_view(values@) =~= strings_view(p.1@));
    (p.0.clone(), values)
}

impl Clone for Property {
    fn clone(&self) -> (r: Self)
        ensures
            r@ == self@,
    {
        let params = match &self.params {
            None => None,
            Some(ps) => {
                let mut out: Vec<(String, Vec<String>)> = Vec::new();
                let mut i: usize = 0;
                while i < ps.len()
                    invariant
                        i <= ps@.len(),
                        out@.len() == i,
                        forall|j: int| 0 <= j < i ==> param_view(#[trigger] out@[j]) == param_view(ps@[j]),
                    decreases ps@.len() - i,
                {
                    out.push(clone_param(&ps[i]));
                    i = i + 1;
                }
                assert(out@.map_values(|p: (String, Vec<String>)| param_view(p)) =~= ps@.map_values(
                    |p: (String, Vec<String>)| param_view(p),
                ));
                Some(out)
            },
        };
        let value = match &self.value {
            Some(v) => Some(v.clone()),
            None => None,
        };
        Property { name: self.name.clone(), params, value }
    }
}

/// Copy a list of properties, keeping the text of each.
pub fn clone_properties(v: &Vec<Property>) -> (r: Vec<Property>)
    ensures
        properties_view(r@) == properties_view(v@),
{
    let mut out: Vec<Property> = Vec::new();
    let mut i: usize = 0;
    while i < v.len()
        invariant
            i <= v@.len(),
            out@.len() == i,
            forall|j: int| 0 <= j < i ==> #[trigger] out@[j]@ == v@[j]@,
        decreases v@.len() - i,
    {
        out.push(v[i].clone());
        i = i + 1;
    }
    assert(properties_view(out@) =~= properties_view(v@));
    out
}

} // verus!

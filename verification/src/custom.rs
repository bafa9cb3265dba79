//! The payload of a custom element: a name, values, and an optional body,
//! written as a block of YAML.

use std::collections::BTreeMap;
use vstd::prelude::*;
use crate::strmap::{map_of, StrMap};
use crate::text::{chars_of, equal_ignoring_ascii_case, push_range, same_ignoring_ascii_case};

verus! {

/// The error type of the YAML reader.
#[verifier::external_type_specification]
#[verifier::external_body]
pub struct ExYamlError(serde_yaml::Error);

/// The bindings that the YAML reader finds in a text that is one mapping from
/// strings to strings, in the order of their keys; `None` where the reader
/// refuses the text.
pub uninterp spec fn yaml_mapping(text: Seq<char>) -> Option<Seq<(Seq<char>, Seq<char>)>>;

/// A list of bindings as plain values.
pub open spec fn pair_values(pairs: Seq<(String, String)>) -> Seq<(Seq<char>, Seq<char>)> {
    Seq::new(pairs.len(), |i: int| (pairs[i].0@, pairs[i].1@))
}

/// Reads `text` as one YAML mapping from strings to strings, by
/// `serde_yaml::from_str` at the type `BTreeMap<String, String>`. The contract
/// is believed, not proved: it names what the reader returns, and says that
/// the reader fails exactly where that is `None`.
#[verifier::external_body]
fn parse_yaml_mapping(text: &str) -> (r: Result<Vec<(String, String)>, serde_yaml::Error>)
    ensures
        match r {
            Ok(pairs) => yaml_mapping(text@) == Some(pair_values(pairs@)),
            Err(_) => yaml_mapping(text@) is None,
        },
{
    let parsed: BTreeMap<String, String> = serde_yaml::from_str(text)?;
    Ok(parsed.into_iter().collect())
}

/// Why a block is no custom element.
#[derive(Debug)]
pub enum CustomElmError {
    YamlParse(serde_yaml::Error),
    NoKeys,
    NoName,
}

/// The kinds of [`CustomElmError`].
pub enum CustomFault {
    YamlParse,
    NoKeys,
    NoName,
}

impl CustomElmError {
    /// The kind of the error.
    pub open spec fn fault(&self) -> CustomFault {
        match self {
            CustomElmError::YamlParse(_) => CustomFault::YamlParse,
            CustomElmError::NoKeys => CustomFault::NoKeys,
            CustomElmError::NoName => CustomFault::NoName,
        }
    }
}

/// A custom element as a mathematical value.
pub struct CustomModel {
    pub name: Seq<char>,
    pub values: Map<Seq<char>, Seq<char>>,
    pub body: Option<Seq<char>>,
    pub template: Option<Seq<char>>,
}

/// The payload of a custom element.
#[derive(Debug, PartialEq)]
pub struct CustomElm {
    pub name: String,
    pub values: StrMap,
    pub body: Option<String>,
    pub template: Option<String>,
}

/// An optional string as a plain value.
pub open spec fn opt_text(o: Option<String>) -> Option<Seq<char>> {
    match o {
        Some(s) => Some(s@),
        None => None,
    }
}

/// A copy of an optional string.
pub fn copy_opt(o: &Option<String>) -> (r: Option<String>)
    ensures
        opt_text(r) == opt_text(*o),
{
    match o {
        Some(s) => Some(s.clone()),
        None => None,
    }
}

/// The line `---` that parts the values from the body begins at `i`.
pub open spec fn separator_at(s: Seq<char>, i: int) -> bool {
    &&& 0 <= i
    &&& i + 4 <= s.len()
    &&& (i == 0 || s[i - 1] == '\n')
    &&& s[i] == '-'
    &&& s[i + 1] == '-'
    &&& s[i + 2] == '-'
    &&& s[i + 3] == '\n'
}

/// The first index from `from` on at which the separator line begins, or -1.
pub open spec fn find_separator(s: Seq<char>, from: int) -> int
    decreases s.len() - from,
{
    if from < 0 || from + 4 > s.len() {
        -1
    } else if separator_at(s, from) {
        from
    } else {
        find_separator(s, from + 1)
    }
}

/// The YAML of a block: what stands before its separator line.
pub open spec fn yaml_part(s: Seq<char>) -> Seq<char> {
    if find_separator(s, 0) < 0 {
        s
    } else {
        s.take(find_separator(s, 0))
    }
}

/// The body of a block: what stands after its separator line, if it has one.
pub open spec fn body_part(s: Seq<char>) -> Option<Seq<char>> {
    if find_separator(s, 0) < 0 {
        None
    } else {
        Some(s.skip(find_separator(s, 0) + 4))
    }
}

/// The key is `name`, in any case of its letters.
pub open spec fn is_name_key(key: Seq<char>) -> bool {
    same_ignoring_ascii_case(key, seq!['n', 'a', 'm', 'e'])
}

/// The first index from `from` on whose key is `name`, or -1.
pub open spec fn name_position(pairs: Seq<(Seq<char>, Seq<char>)>, from: int) -> int
    decreases pairs.len() - from,
{
    if from < 0 || from >= pairs.len() {
        -1
    } else if is_name_key(pairs[from].0) {
        from
    } else {
        name_position(pairs, from + 1)
    }
}

/// The custom element that a list of bindings and a body make: the first
/// binding whose key is `name` gives the name, all others are the values.
pub open spec fn custom_of_parts(
    pairs: Seq<(Seq<char>, Seq<char>)>,
    body: Option<Seq<char>>,
) -> Result<CustomModel, CustomFault> {
    let p = name_position(pairs, 0);
    if p < 0 {
        Err(CustomFault::NoName)
    } else {
        Ok(CustomModel { name: pairs[p].1, values: map_of(pairs.remove(p)), body, template: None })
    }
}

/// The custom element that the text of a block stands for.
pub open spec fn custom_of(s: Seq<char>) -> Result<CustomModel, CustomFault> {
    match yaml_mapping(yaml_part(s)) {
        None => Err(CustomFault::YamlParse),
        Some(pairs) => custom_of_parts(pairs, body_part(s)),
    }
}

fn find_name(pairs: &Vec<(String, String)>) -> (r: Option<usize>)
    ensures
        match r {
            Some(p) => p < pairs.len() && p == name_position(pair_values(pairs@), 0),
            None => name_position(pair_values(pairs@), 0) == -1,
        },
{
    let ghost all = pair_values(pairs@);
    let name_key = chars_of("name");
    proof {
        reveal_strlit("name");
        assert(name_key@ =~= seq!['n', 'a', 'm', 'e']);
    }
    let mut p: usize = 0;
    while p < pairs.len()
        invariant
            p <= pairs.len(),
            all == pair_values(pairs@),
            name_key@ == seq!['n', 'a', 'm', 'e'],
            name_position(all, p as int) == name_position(all, 0),
        decreases pairs.len() - p,
    {
        let key = chars_of(pairs[p].0.as_str());
        if equal_ignoring_ascii_case(&key, &name_key) {
            return Some(p);
        }
        p += 1;
    }
    None
}

fn find_separator_in(chars: &Vec<char>) -> (r: Option<usize>)
    ensures
        match r {
            Some(i) => i == find_separator(chars@, 0) && i + 4 <= chars.len(),
            None => find_separator(chars@, 0) == -1,
        },
{
    let n: usize = chars.len();
    if n < 4 {
        return None;
    }
    let mut i: usize = 0;
    while i <= n - 4
        invariant
            n == chars.len(),
            n >= 4,
            find_separator(chars@, i as int) == find_separator(chars@, 0),
        decreases n - i,
    {
        if (i == 0 || chars[i - 1] == '\n') && chars[i] == '-' && chars[i + 1] == '-' && chars[i
            + 2] == '-' && chars[i + 3] == '\n' {
            return Some(i);
        }
        i += 1;
    }
    None
}

impl CustomElm {
    /// The payload as a mathematical value.
    pub open spec fn model(&self) -> CustomModel {
        CustomModel {
            name: self.name@,
            values: self.values@,
            body: opt_text(self.body),
            template: opt_text(self.template),
        }
    }

    /// A payload without name, values, body or template.
    pub fn new() -> (c: Self)
        ensures
            c.model() == (CustomModel {
                name: Seq::empty(),
                values: Map::empty(),
                body: None,
                template: None,
            }),
            c.values.wf(),
    {
        CustomElm { name: String::new(), values: StrMap::new(), body: None, template: None }
    }

    /// The payload that a list of bindings and a body make. The first binding
    /// whose key is `name`, in any case of its letters, gives the name; the
    /// others are the values. Fails where no key is `name`.
    pub fn from_parts(pairs: Vec<(String, String)>, body: Option<String>) -> (r: Result<
        Self,
        CustomElmError,
    >)
        ensures
            match r {
                Ok(c) => custom_of_parts(pair_values(pairs@), opt_text(body)) == Ok::<
                    CustomModel,
                    CustomFault,
                >(c.model()) && c.values.wf(),
                Err(e) => custom_of_parts(pair_values(pairs@), opt_text(body)) == Err::<
                    CustomModel,
                    CustomFault,
                >(e.fault()),
            },
    {
        let ghost all = pair_values(pairs@);
        let p: usize = match find_name(&pairs) {
            Some(p) => p,
            None => {
                return Err(CustomElmError::NoName);
            },
        };
        let name = pairs[p].1.clone();
        let mut values = StrMap::new();
        let mut i: usize = 0;
        proof {
            assert(all.remove(p as int).take(0) =~= Seq::empty());
        }
        while i < pairs.len()
            invariant
                i <= pairs.len(),
                p < pairs.len(),
                all == pair_values(pairs@),
                values.wf(),
                values@ == map_of(
                    all.remove(p as int).take(if i <= p {
                        i as int
                    } else {
                        i - 1
                    }),
                ),
            decreases pairs.len() - i,
        {
            if i != p {
                let ghost k: int = if i < p {
                    i as int
                } else {
                    i - 1
                };
                proof {
                    let rest = all.remove(p as int);
                    assert(rest[k] == all[i as int]);
                    assert(rest.take(k + 1).drop_last() =~= rest.take(k));
                }
                values.insert(pairs[i].0.as_str(), pairs[i].1.clone());
            }
            i += 1;
        }
        proof {
            let rest = all.remove(p as int);
            assert(rest.take(rest.len() as int) =~= rest);
        }
        Ok(CustomElm { name, values, body, template: None })
    }

    /// Reads the text of a block. What stands before the first line that is
    /// `---` is YAML, one mapping from strings to strings; what stands after
    /// it is the body. Fails where the YAML reader refuses the first part, and
    /// where no key is `name`.
    pub fn from_string(s: &str) -> (r: Result<Self, CustomElmError>)
        ensures
            match r {
                Ok(c) => custom_of(s@) == Ok::<CustomModel, CustomFault>(c.model())
                    && c.values.wf(),
                Err(e) => custom_of(s@) == Err::<CustomModel, CustomFault>(e.fault()),
            },
    {
        let chars = chars_of(s);
        let n: usize = chars.len();
        let at: Option<usize> = find_separator_in(&chars);
        let mut yaml = String::new();
        let body = match at {
            Some(i) => {
                push_range(&mut yaml, &chars, 0, i);
                let mut b = String::new();
                push_range(&mut b, &chars, i + 4, n);
                proof {
                    assert(yaml@ =~= s@.take(i as int));
                    assert(b@ =~= s@.skip(i + 4));
                }
                Some(b)
            },
            None => {
                push_range(&mut yaml, &chars, 0, n);
                proof {
                    assert(yaml@ =~= s@);
                }
                None
            },
        };
        match parse_yaml_mapping(yaml.as_str()) {
            Err(e) => Err(CustomElmError::YamlParse(e)),
            Ok(pairs) => CustomElm::from_parts(pairs, body),
        }
    }
}

impl Clone for CustomElm {
    fn clone(&self) -> (c: Self)
        ensures
            c.model() == self.model(),
            c.values.bindings() == self.values.bindings(),
    {
        CustomElm {
            name: self.name.clone(),
            values: self.values.copy(),
            body: copy_opt(&self.body),
            template: copy_opt(&self.template),
        }
    }
}

} // verus!

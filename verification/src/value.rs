//! A codec-agnostic document tree: the structured payload that messages are
//! converted to and from on their way to a concrete wire format.

use vstd::prelude::*;
use vstd::string::StringExecFns;

verus! {

/// Mathematical model of a document-tree value.
#[verifier::ext_equal]
pub enum ValueV {
    Null,
    Bool(bool),
    Int(int),
    Str(Seq<char>),
    Arr(Seq<ValueV>),
    Obj(Seq<(Seq<char>, ValueV)>),
}

/// A structured payload: null, a boolean, an integer, text, a list, or a
/// map of named fields in order.
#[derive(Debug)]
pub enum Doc {
    Null,
    Bool(bool),
    Int(i64),
    Str(String),
    Arr(Vec<Doc>),
    Obj(Vec<(String, Doc)>),
}

impl View for Doc {
    type V = ValueV;

    open spec fn view(&self) -> ValueV {
        value_view(self)
    }
}

impl DeepView for Doc {
    type V = ValueV;

    open spec fn deep_view(&self) -> ValueV {
        value_view(self)
    }
}

/// The model of one value.
pub open spec fn value_view(v: &Doc) -> ValueV
    decreases v,
{
    match v {
        Doc::Null => ValueV::Null,
        Doc::Bool(b) => ValueV::Bool(*b),
        Doc::Int(n) => ValueV::Int(*n as int),
        Doc::Str(s) => ValueV::Str(s@),
        Doc::Arr(items) => ValueV::Arr(vals_view(items@)),
        Doc::Obj(fields) => ValueV::Obj(entries_view(fields@)),
    }
}

/// The models of a list of values, in order.
pub open spec fn vals_view(s: Seq<Doc>) -> Seq<ValueV>
    decreases s,
{
    if s.len() == 0 {
        Seq::empty()
    } else {
        seq![value_view(&s[0])] + vals_view(s.subrange(1, s.len() as int))
    }
}

/// The models of a list of named fields, in order.
pub open spec fn entries_view(s: Seq<(String, Doc)>) -> Seq<(Seq<char>, ValueV)>
    decreases s,
{
    if s.len() == 0 {
        Seq::empty()
    } else {
        seq![(s[0].0@, value_view(&s[0].1))] + entries_view(s.subrange(1, s.len() as int))
    }
}

pub proof fn lemma_vals_view(s: Seq<Doc>)
    ensures
        vals_view(s).len() == s.len(),
        forall|i: int| 0 <= i < s.len() ==> vals_view(s)[i] == value_view(&s[i]),
    decreases s,
{
    if s.len() > 0 {
        let sub = s.subrange(1, s.len() as int);
        lemma_vals_view(sub);
        assert forall|i: int| 0 <= i < s.len() implies vals_view(s)[i] == value_view(&s[i]) by {
            if i > 0 {
                assert(sub[i - 1] == s[i]);
            }
        }
    }
}

pub proof fn lemma_entries_view(s: Seq<(String, Doc)>)
    ensures
        entries_view(s).len() == s.len(),
        forall|i: int| 0 <= i < s.len() ==> entries_view(s)[i]
            == (s[i].0@, value_view(&s[i].1)),
    decreases s,
{
    if s.len() > 0 {
        let sub = s.subrange(1, s.len() as int);
        lemma_entries_view(sub);
        assert forall|i: int| 0 <= i < s.len() implies entries_view(s)[i]
            == (s[i].0@, value_view(&s[i].1)) by {
            if i > 0 {
                assert(sub[i - 1] == s[i]);
            }
        }
    }
}

// ---------------------------------------------------------------------------
// Field lookup
// ---------------------------------------------------------------------------

/// The value of the first field with the given name, if any.
pub open spec fn obj_get(fields: Seq<(Seq<char>, ValueV)>, key: Seq<char>) -> Option<ValueV>
    decreases fields,
{
    if fields.len() == 0 {
        None
    } else if fields[0].0 == key {
        Some(fields[0].1)
    } else {
        obj_get(fields.subrange(1, fields.len() as int), key)
    }
}

/// Looking a key up in two concatenated field lists searches the first, and
/// falls back to the second.
pub proof fn lemma_obj_get_append(
    a: Seq<(Seq<char>, ValueV)>,
    b: Seq<(Seq<char>, ValueV)>,
    key: Seq<char>,
)
    ensures
        obj_get(a + b, key) == match obj_get(a, key) {
            Some(v) => Some(v),
            None => obj_get(b, key),
        },
    decreases a,
{
    if a.len() == 0 {
        assert(a + b =~= b);
    } else {
        let sub = a.subrange(1, a.len() as int);
        lemma_obj_get_append(sub, b, key);
        assert((a + b).subrange(1, (a + b).len() as int) =~= sub + b);
    }
}

impl Doc {
    /// A text value.
    pub fn text(s: &str) -> (r: Doc)
        ensures
            r@ == ValueV::Str(s@),
    {
        Doc::Str(String::from_str(s))
    }

    /// An empty field map.
    pub fn empty_obj() -> (r: Doc)
        ensures
            r@ == ValueV::Obj(Seq::empty()),
    {
        let r = Doc::Obj(Vec::new());
        proof {
            assert(r@ =~= ValueV::Obj(Seq::empty()));
        }
        r
    }

    /// The value of the first field with the given name, if this is a field
    /// map holding one.
    pub fn get<'a>(&'a self, key: &str) -> (r: Option<&'a Doc>)
        ensures
            match self@ {
                ValueV::Obj(fields) => match r {
                    Some(v) => obj_get(fields, key@) == Some(v@),
                    None => obj_get(fields, key@).is_none(),
                },
                _ => r.is_none(),
            },
    {
        match self {
            Doc::Obj(fields) => obj_find(fields, key),
            _ => None,
        }
    }
}

/// Finds the first field with the given name.
#[verifier::loop_isolation(false)]
pub fn obj_find<'a>(fields: &'a Vec<(String, Doc)>, key: &str) -> (r: Option<&'a Doc>)
    ensures
        match r {
            Some(v) => obj_get(entries_view(fields@), key@) == Some(v@) && exists|i: int|
                0 <= i < fields@.len() && #[trigger] fields@[i].1 == *v && fields@[i].0@ == key@,
            None => obj_get(entries_view(fields@), key@).is_none(),
        },
{
    proof {
        lemma_entries_view(fields@);
        assert(entries_view(fields@).subrange(0, fields@.len() as int)
            =~= entries_view(fields@));
    }
    let mut i: usize = 0;
    while i < fields.len()
        invariant
            i <= fields.len(),
            forall|j: int| 0 <= j < i ==> fields@[j].0@ != key@,
            obj_get(entries_view(fields@), key@)
                == obj_get(entries_view(fields@).subrange(i as int, fields@.len() as int), key@),
        decreases fields.len() - i,
    {
        let ghost pre = entries_view(fields@).subrange(i as int, fields@.len() as int);
        if crate::str_eq(fields[i].0.as_str(), key) {
            proof {
                assert(pre[0] == entries_view(fields@)[i as int]);
                assert(fields@[i as int].1 == fields@[i as int].1 && fields@[i as int].0@
                    == key@);
            }
            return Some(&fields[i].1);
        }
        proof {
            assert(pre[0] == entries_view(fields@)[i as int]);
            assert(pre.subrange(1, pre.len() as int)
                =~= entries_view(fields@).subrange(i + 1, fields@.len() as int));
        }
        i += 1;
    }
    proof {
        assert(entries_view(fields@).subrange(fields@.len() as int, fields@.len() as int)
            =~= Seq::<(Seq<char>, ValueV)>::empty());
    }
    None
}

impl Clone for Doc {
    #[verifier::loop_isolation(false)]
    fn clone(&self) -> (r: Self)
        ensures
            r@ == self@,
        decreases self,
    {
        match self {
            Doc::Null => Doc::Null,
            Doc::Bool(b) => Doc::Bool(*b),
            Doc::Int(n) => Doc::Int(*n),
            Doc::Str(s) => Doc::Str(s.clone()),
            Doc::Arr(items) => {
                let mut out: Vec<Doc> = Vec::new();
                let mut i: usize = 0;
                while i < items.len()
                    invariant
                        i <= items.len(),
                        out@.len() == i,
                        forall|j: int| 0 <= j < i
                            ==> #[trigger] value_view(&out@[j]) == value_view(&items@[j]),
                    decreases items.len() - i,
                {
                    proof {
                        assert(decreases_to!(*self => self->Arr_0));
                        assert(decreases_to!(self->Arr_0@ => self->Arr_0@[i as int]));
                    }
                    let e = items[i].clone();
                    out.push(e);
                    i += 1;
                }
                let r = Doc::Arr(out);
                proof {
                    lemma_vals_view(out@);
                    lemma_vals_view(items@);
                    assert(vals_view(out@) =~= vals_view(items@));
                }
                r
            }
            Doc::Obj(fields) => {
                let mut out: Vec<(String, Doc)> = Vec::new();
                let mut i: usize = 0;
                while i < fields.len()
                    invariant
                        i <= fields.len(),
                        out@.len() == i,
                        forall|j: int| 0 <= j < i
                            ==> #[trigger] out@[j].0@ == fields@[j].0@
                                && value_view(&out@[j].1) == value_view(&fields@[j].1),
                    decreases fields.len() - i,
                {
                    proof {
                        assert(decreases_to!(*self => self->Obj_0));
                        assert(decreases_to!(self->Obj_0@ => self->Obj_0@[i as int]));
                        assert(decreases_to!(self->Obj_0@[i as int]
                            => self->Obj_0@[i as int].1));
                    }
                    let k = fields[i].0.clone();
                    let v = fields[i].1.clone();
                    out.push((k, v));
                    i += 1;
                }
                let r = Doc::Obj(out);
                proof {
                    lemma_entries_view(out@);
                    lemma_entries_view(fields@);
                    assert(entries_view(out@) =~= entries_view(fields@));
                }
                r
            }
        }
    }
}

} // verus!

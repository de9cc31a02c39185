//! A JSON value model holding, as plain values, what the codec reads of a document.
use vstd::prelude::*;

verus! {

broadcast use vstd::std_specs::vec::group_vec_axioms;

/// How a JSON reader classified a number.
#[derive(Clone, Copy, Debug, PartialEq, Eq, Structural)]
pub enum Number {
    /// A non-negative integer that fits in `u64`.
    PosInt(u64),
    /// A negative integer that fits in `i64`.
    NegInt(i64),
    /// Any other number, by its IEEE-754 binary64 bit pattern.
    Float(u64),
}

/// A JSON value.
///
/// Numbers come in three forms. A reader that prepares a document for encoding
/// gives each number as `Scaled`: its class, and its value multiplied by
/// `10^precision` and rounded to the nearest integer, which is all a coordinate
/// keeps of it. The decoder restores coordinates as `Grid(g)`, standing for
/// `g / 10^precision`, and property numbers as `Number`.
/// Object members keep the order in which they were read.
#[derive(Debug)]
pub enum Json {
    Null,
    Bool(bool),
    Str(String),
    Number(Number),
    Scaled(Number, i64),
    Grid(i64),
    Array(Vec<Json>),
    Object(Vec<(String, Json)>),
}

/// The mathematical value of a [`Json`].
pub enum JsonV {
    Null,
    Bool(bool),
    Str(Seq<char>),
    Number(Number),
    Scaled(Number, i64),
    Grid(i64),
    Array(Seq<JsonV>),
    Object(Seq<(Seq<char>, JsonV)>),
}

pub open spec fn json_view(j: Json) -> JsonV
    decreases j, 0nat,
{
    match j {
        Json::Null => JsonV::Null,
        Json::Bool(b) => JsonV::Bool(b),
        Json::Str(s) => JsonV::Str(s@),
        Json::Number(n) => JsonV::Number(n),
        Json::Scaled(n, g) => JsonV::Scaled(n, g),
        Json::Grid(g) => JsonV::Grid(g),
        Json::Array(v) => JsonV::Array(elems_view(v@)),
        Json::Object(m) => JsonV::Object(members_view(m@)),
    }
}

pub open spec fn elems_view(s: Seq<Json>) -> Seq<JsonV>
    decreases s, 0nat,
{
    if s.len() == 0 {
        Seq::empty()
    } else {
        elems_view(s.drop_last()).push(json_view(s.last()))
    }
}

pub open spec fn members_view(s: Seq<(String, Json)>) -> Seq<(Seq<char>, JsonV)>
    decreases s, 0nat,
{
    if s.len() == 0 {
        Seq::empty()
    } else {
        members_view(s.drop_last()).push((s.last().0@, json_view(s.last().1)))
    }
}

impl View for Json {
    type V = JsonV;

    open spec fn view(&self) -> JsonV {
        json_view(*self)
    }
}

pub proof fn lemma_elems_view(s: Seq<Json>)
    ensures
        elems_view(s).len() == s.len(),
        forall|i: int| 0 <= i < s.len() ==> #[trigger] elems_view(s)[i] == json_view(s[i]),
    decreases s.len(),
{
    if s.len() > 0 {
        lemma_elems_view(s.drop_last());
    }
}

pub proof fn lemma_members_view(s: Seq<(String, Json)>)
    ensures
        members_view(s).len() == s.len(),
        forall|i: int|
            0 <= i < s.len() ==> #[trigger] members_view(s)[i] == (s[i].0@, json_view(s[i].1)),
    decreases s.len(),
{
    if s.len() > 0 {
        lemma_members_view(s.drop_last());
    }
}

/// The index of the first member named `key`, or -1.
pub open spec fn member_index<V>(m: Seq<(String, V)>, key: Seq<char>) -> int
    decreases m.len(),
{
    if m.len() == 0 {
        -1
    } else {
        let i = member_index(m.drop_last(), key);
        if i >= 0 {
            i
        } else if m.last().0@ == key {
            m.len() - 1
        } else {
            -1
        }
    }
}

pub proof fn lemma_member_index<V>(m: Seq<(String, V)>, key: Seq<char>)
    ensures
        -1 <= member_index(m, key) < m.len(),
        member_index(m, key) >= 0 ==> m[member_index(m, key)].0@ == key,
        forall|k: int|
            0 <= k < m.len() && (member_index(m, key) < 0 || k < member_index(m, key))
                ==> #[trigger] m[k].0@ != key,
    decreases m.len(),
{
    if m.len() > 0 {
        lemma_member_index(m.drop_last(), key);
        assert forall|k: int| 0 <= k < m.len() - 1 implies m.drop_last()[k] == m[k] by {}
    }
}

/// The value of the member `key` of `j`, if `j` is an object that has one.
pub open spec fn member(j: Json, key: Seq<char>) -> Option<Json> {
    match j {
        Json::Object(m) => {
            let i = member_index(m@, key);
            if 0 <= i < m@.len() {
                Some(m@[i].1)
            } else {
                None
            }
        },
        _ => None,
    }
}

/// Whether two strings hold the same characters.
pub fn str_eq(a: &str, b: &str) -> (r: bool)
    ensures
        r == (a@ == b@),
{
    let n = a.unicode_len();
    let m = b.unicode_len();
    if n != m {
        return false;
    }
    let mut i: usize = 0;
    while i < n
        invariant
            n == a@.len(),
            m == b@.len(),
            n == m,
            i <= n,
            forall|k: int| 0 <= k < i ==> a@[k] == b@[k],
        decreases n - i,
    {
        if a.get_char(i) != b.get_char(i) {
            return false;
        }
        i = i + 1;
    }
    assert(a@ =~= b@);
    true
}

/// The first member of `members` named `key`.
pub fn find_member<'a>(members: &'a Vec<(String, Json)>, key: &str) -> (r: Option<&'a Json>)
    ensures
        match r {
            Some(v) => {
                &&& 0 <= member_index(members@, key@) < members@.len()
                &&& *v == members@[member_index(members@, key@)].1
            },
            None => member_index(members@, key@) < 0,
        },
{
    proof {
        lemma_member_index(members@, key@);
    }
    let mut i: usize = 0;
    while i < members.len()
        invariant
            i <= members@.len(),
            -1 <= member_index(members@, key@) < members@.len(),
            member_index(members@, key@) >= 0 ==> member_index(members@, key@) >= i,
            member_index(members@, key@) >= 0 ==> members@[member_index(members@, key@)].0@
                == key@,
            forall|k: int|
                0 <= k < members@.len() && (member_index(members@, key@) < 0 || k
                    < member_index(members@, key@)) ==> #[trigger] members@[k].0@ != key@,
        decreases members.len() - i,
    {
        if str_eq(members[i].0.as_str(), key) {
            return Some(&members[i].1);
        }
        i = i + 1;
    }
    None
}

/// The value of the member `key` of `j`, if `j` is an object that has one.
pub fn get_member<'a>(j: &'a Json, key: &str) -> (r: Option<&'a Json>)
    ensures
        match r {
            Some(v) => member(*j, key@) == Some(*v),
            None => member(*j, key@) is None,
        },
{
    match j {
        Json::Object(m) => find_member(m, key),
        _ => None,
    }
}

impl Json {
    /// A copy of this value.
    pub fn duplicate(&self) -> (r: Json)
        ensures
            r@ == self@,
        decreases self,
    {
        match self {
            Json::Null => Json::Null,
            Json::Bool(b) => Json::Bool(*b),
            Json::Str(s) => Json::Str(s.clone()),
            Json::Number(n) => Json::Number(*n),
            Json::Scaled(n, g) => Json::Scaled(*n, *g),
            Json::Grid(g) => Json::Grid(*g),
            Json::Array(v) => {
                let mut out: Vec<Json> = Vec::new();
                let mut i: usize = 0;
                while i < v.len()
                    invariant
                        *self == Json::Array(*v),
                        i <= v@.len(),
                        elems_view(out@) == elems_view(v@.take(i as int)),
                    decreases v.len() - i,
                {
                    proof {
                        assert(decreases_to!(*self => (*self)->Array_0));
                        assert(decreases_to!(*v => v@));
                        assert(decreases_to!(*self => v@[i as int]));
                    }
                    let e = v[i].duplicate();
                    proof {
                        let t = v@.take(i as int + 1);
                        assert(t.drop_last() =~= v@.take(i as int));
                        assert(out@.push(e).drop_last() =~= out@);
                    }
                    out.push(e);
                    i = i + 1;
                }
                assert(v@.take(i as int) =~= v@);
                Json::Array(out)
            },
            Json::Object(m) => {
                let mut out: Vec<(String, Json)> = Vec::new();
                let mut i: usize = 0;
                while i < m.len()
                    invariant
                        *self == Json::Object(*m),
                        i <= m@.len(),
                        members_view(out@) == members_view(m@.take(i as int)),
                    decreases m.len() - i,
                {
                    proof {
                        assert(decreases_to!(*self => (*self)->Object_0));
                        assert(decreases_to!(*m => m@));
                        assert(decreases_to!(*self => m@[i as int].1));
                    }
                    let e = m[i].1.duplicate();
                    let k = m[i].0.clone();
                    proof {
                        let t = m@.take(i as int + 1);
                        assert(t.drop_last() =~= m@.take(i as int));
                        assert(out@.push((k, e)).drop_last() =~= out@);
                    }
                    out.push((k, e));
                    i = i + 1;
                }
                assert(m@.take(i as int) =~= m@);
                Json::Object(out)
            },
        }
    }
}

} // verus!

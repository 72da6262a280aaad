use vstd::prelude::*;

verus! {

broadcast use vstd::std_specs::vec::group_vec_axioms;

/// A parsed JSON value.
#[derive(Debug)]
pub enum Json {
    Null,
    Bool(bool),
    /// A number that is an integer within the range of `i64`.
    Int(i64),
    /// A non-negative integer; values above `i64::MAX` are kept here.
    UInt(u64),
    /// A number with a fraction or an exponent, kept in its textual form.
    Decimal(String),
    Str(String),
    Array(Vec<Json>),
    /// The members of an object, in the order in which they were written.
    Object(Vec<(String, Json)>),
}

/// Whether a value reads as a 64-bit signed integer.
pub open spec fn is_i64(v: Json) -> bool {
    match v {
        Json::Int(_) => true,
        Json::UInt(u) => u <= i64::MAX,
        _ => false,
    }
}

/// Position of the first member named `key`, or `entries.len()` where no member has that name.
pub open spec fn key_index(entries: Seq<(String, Json)>, key: Seq<char>) -> nat
    decreases entries.len(),
{
    if entries.len() == 0 {
        0
    } else if entries[0].0@ == key {
        0
    } else {
        key_index(entries.drop_first(), key) + 1
    }
}

/// The value of the first member named `key` of an object; nothing for any other value.
pub open spec fn member(v: Json, key: Seq<char>) -> Option<Json> {
    match v {
        Json::Object(entries) => {
            let i = key_index(entries@, key);
            if i < entries@.len() {
                Some(entries@[i as int].1)
            } else {
                None
            }
        },
        _ => None,
    }
}

/// `key_index` is the first position whose name is `key`.
pub proof fn lemma_key_index(entries: Seq<(String, Json)>, key: Seq<char>)
    ensures
        key_index(entries, key) <= entries.len(),
        key_index(entries, key) < entries.len() ==> entries[key_index(entries, key) as int].0@
            == key,
        forall|j: int| 0 <= j < key_index(entries, key) ==> entries[j].0@ != key,
    decreases entries.len(),
{
    if entries.len() > 0 && entries[0].0@ != key {
        lemma_key_index(entries.drop_first(), key);
        assert forall|j: int| 0 <= j < key_index(entries, key) implies entries[j].0@ != key by {
            if j > 0 {
                assert(entries[j] == entries.drop_first()[j - 1]);
            }
        }
    }
}

/// A position that is the first to carry `key` is `key_index`; so is the end when none does.
pub proof fn lemma_key_index_at(entries: Seq<(String, Json)>, key: Seq<char>, i: int)
    requires
        0 <= i <= entries.len(),
        i < entries.len() ==> entries[i].0@ == key,
        forall|j: int| 0 <= j < i ==> entries[j].0@ != key,
    ensures
        key_index(entries, key) == i,
{
    lemma_key_index(entries, key);
    let k = key_index(entries, key) as int;
    if k < i {
        assert(entries[k].0@ != key);
    }
    if i < k {
        assert(entries[i].0@ != key);
    }
}

/// A member of a value is smaller than the value.
pub proof fn lemma_member_decreases(v: Json, key: Seq<char>)
    requires
        member(v, key) is Some,
    ensures
        decreases_to!(v => member(v, key)->0),
{
    if let Json::Object(entries) = v {
        let i = key_index(entries@, key) as int;
        assert(decreases_to!(entries => entries[i]));
        assert(entries[i] == entries@[i]);
        assert(decreases_to!(v => entries@[i].1));
    }
}

impl Json {
    /// The value as an `i64`, where it is an integer within that type's range.
    pub fn as_i64(&self) -> (r: Option<i64>)
        ensures
            r is Some <==> is_i64(*self),
            r matches Some(n) ==> (*self == Json::Int(n) || *self == Json::UInt(n as u64)),
    {
        match self {
            Json::Int(n) => Some(*n),
            Json::UInt(u) => if *u <= i64::MAX as u64 {
                Some(*u as i64)
            } else {
                None
            },
            _ => None,
        }
    }

    /// The text of a string value.
    pub fn as_str(&self) -> (r: Option<&String>)
        ensures
            r is Some <==> *self is Str,
            r matches Some(s) ==> *self == Json::Str(*s),
    {
        match self {
            Json::Str(s) => Some(s),
            _ => None,
        }
    }

    /// The value of the first member named `key`, where `self` is an object.
    pub fn get(&self, key: &str) -> (r: Option<&Json>)
        ensures
            r is Some <==> member(*self, key@) is Some,
            r matches Some(v) ==> member(*self, key@) == Some(*v),
    {
        match self {
            Json::Object(entries) => {
                let name = key.to_owned();
                let mut i: usize = 0;
                while i < entries.len()
                    invariant
                        i <= entries.len(),
                        *self == Json::Object(*entries),
                        name@ == key@,
                        forall|j: int| 0 <= j < i ==> entries@[j].0@ != key@,
                    decreases entries.len() - i,
                {
                    if entries[i].0 == name {
                        proof {
                            lemma_key_index_at(entries@, key@, i as int);
                        }
                        return Some(&entries[i].1);
                    }
                    i = i + 1;
                }
                proof {
                    lemma_key_index_at(entries@, key@, i as int);
                }
                None
            },
            _ => None,
        }
    }
}

} // verus!

use vstd::prelude::*;
use crate::json::{Json, member};

verus! {

/// The pieces of `s` between its `/` separators, in order; `s` with no separator is one piece.
pub open spec fn split_slash(s: Seq<char>) -> Seq<Seq<char>>
    decreases s.len(),
{
    if s.len() == 0 {
        seq![Seq::empty()]
    } else {
        let prev = split_slash(s.drop_last());
        if s.last() == '/' {
            prev.push(Seq::empty())
        } else {
            prev.update(prev.len() - 1, prev.last().push(s.last()))
        }
    }
}

/// The name under which a schema keeps the fragments that references point to.
pub open spec fn definitions_key() -> Seq<char> {
    "definitions"@
}

/// One step down from `cur`: its member `seg`, or failing that the entry `seg` of its
/// `definitions` member.
pub open spec fn step(cur: Json, seg: Seq<char>) -> Option<Json> {
    match member(cur, seg) {
        Some(next) => Some(next),
        None => match member(cur, definitions_key()) {
            Some(defs) => member(defs, seg),
            None => None,
        },
    }
}

/// The fragment reached from `cur` by taking each segment in turn.
pub open spec fn walk(cur: Json, segs: Seq<Seq<char>>) -> Option<Json>
    decreases segs.len(),
{
    if segs.len() == 0 {
        Some(cur)
    } else {
        match step(cur, segs[0]) {
            Some(next) => walk(next, segs.drop_first()),
            None => None,
        }
    }
}

/// The fragment of `root` that `pointer` addresses: the pointer is `#` followed by at
/// least one `/`-separated segment, taken from the root down.
pub open spec fn resolution(root: Json, pointer: Seq<char>) -> Option<Json> {
    let parts = split_slash(pointer);
    if parts.len() >= 2 && parts[0] == "#"@ {
        walk(root, parts.drop_first())
    } else {
        None
    }
}

pub proof fn lemma_split_nonempty(s: Seq<char>)
    ensures
        split_slash(s).len() >= 1,
    decreases s.len(),
{
    if s.len() > 0 {
        lemma_split_nonempty(s.drop_last());
    }
}

/// Splits `p` at each `/`.
pub fn split_pointer(p: &str) -> (r: Vec<String>)
    ensures
        r@.len() == split_slash(p@).len(),
        forall|k: int| 0 <= k < r@.len() ==> r@[k]@ == split_slash(p@)[k],
{
    let n = p.unicode_len();
    let mut segs: Vec<String> = Vec::new();
    let mut start: usize = 0;
    let mut i: usize = 0;
    while i < n
        invariant
            n == p@.len(),
            start <= i <= n,
            split_slash(p@.take(i as int)).len() == segs@.len() + 1,
            forall|k: int|
                0 <= k < segs@.len() ==> segs@[k]@ == split_slash(p@.take(i as int))[k],
            split_slash(p@.take(i as int)).last() == p@.subrange(start as int, i as int),
        decreases n - i,
    {
        let c = p.get_char(i);
        proof {
            let t = p@.take(i as int + 1);
            assert(t.drop_last() =~= p@.take(i as int));
            assert(t.last() == c);
            lemma_split_nonempty(p@.take(i as int));
        }
        if c == '/' {
            let piece = p.substring_char(start, i).to_owned();
            segs.push(piece);
            start = i + 1;
            proof {
                assert(p@.subrange(start as int, i as int + 1) =~= Seq::<char>::empty());
            }
        } else {
            proof {
                assert(p@.subrange(start as int, i as int).push(c) =~= p@.subrange(
                    start as int,
                    i as int + 1,
                ));
            }
        }
        i = i + 1;
    }
    let last = p.substring_char(start, n).to_owned();
    segs.push(last);
    proof {
        assert(p@.take(n as int) =~= p@);
    }
    segs
}

/// Finds the fragment of `root` that `pointer` addresses. The fragment is handed back as a
/// shared borrow of `root`, which stays unchanged while the borrow lives.
pub fn resolve<'a>(root: &'a Json, pointer: &str) -> (r: Option<&'a Json>)
    ensures
        r is Some <==> resolution(*root, pointer@) is Some,
        r matches Some(f) ==> resolution(*root, pointer@) == Some(*f),
{
    let parts = split_pointer(pointer);
    if parts.len() < 2 {
        return None;
    }
    let hash = "#".to_owned();
    if parts[0] != hash {
        return None;
    }
    let ghost segs = split_slash(pointer@).drop_first();
    let mut cur: &Json = root;
    let mut i: usize = 1;
    proof {
        assert(segs.skip(0) =~= segs);
    }
    while i < parts.len()
        invariant
            1 <= i <= parts@.len(),
            parts@.len() == split_slash(pointer@).len(),
            forall|k: int| 0 <= k < parts@.len() ==> parts@[k]@ == split_slash(pointer@)[k],
            segs == split_slash(pointer@).drop_first(),
            walk(*root, segs) == walk(*cur, segs.skip(i - 1)),
        decreases parts@.len() - i,
    {
        let seg = parts[i].as_str();
        proof {
            assert(segs.skip(i - 1)[0] == seg@);
            assert(segs.skip(i - 1).drop_first() =~= segs.skip(i as int));
        }
        match cur.get(seg) {
            Some(next) => {
                cur = next;
            },
            None => match cur.get("definitions") {
                Some(defs) => match defs.get(seg) {
                    Some(next) => {
                        cur = next;
                    },
                    None => {
                        return None;
                    },
                },
                None => {
                    return None;
                },
            },
        }
        i = i + 1;
    }
    proof {
        assert(segs.skip(i - 1) =~= Seq::<Seq<char>>::empty());
    }
    Some(cur)
}

/// Appending text without a `/` extends the last piece.
proof fn lemma_split_extend(a: Seq<char>, b: Seq<char>)
    requires
        forall|k: int| 0 <= k < b.len() ==> b[k] != '/',
    ensures
        split_slash(a + b) == split_slash(a).update(
            split_slash(a).len() - 1,
            split_slash(a).last() + b,
        ),
    decreases b.len(),
{
    lemma_split_nonempty(a);
    let sa = split_slash(a);
    if b.len() == 0 {
        assert(a + b =~= a);
        assert(sa.last() + b =~= sa.last());
        assert(sa.update(sa.len() - 1, sa.last()) =~= sa);
    } else {
        let b0 = b.drop_last();
        lemma_split_extend(a, b0);
        assert((a + b).drop_last() =~= a + b0);
        assert((a + b).last() == b.last());
        assert((sa.last() + b0).push(b.last()) =~= sa.last() + b);
        assert(sa.update(sa.len() - 1, sa.last() + b0).update(sa.len() - 1, sa.last() + b)
            =~= sa.update(sa.len() - 1, sa.last() + b));
    }
}

/// A `/` followed by text without one starts a new last piece.
proof fn lemma_split_segment(a: Seq<char>, b: Seq<char>)
    requires
        forall|k: int| 0 <= k < b.len() ==> b[k] != '/',
    ensures
        split_slash(a.push('/') + b) == split_slash(a).push(b),
{
    let a1 = a.push('/');
    assert(a1.drop_last() =~= a);
    lemma_split_extend(a1, b);
    let sa = split_slash(a);
    assert(split_slash(a1) == sa.push(Seq::empty()));
    assert(Seq::<char>::empty() + b =~= b);
    assert(sa.push(Seq::empty()).update(sa.len() as int, b) =~= sa.push(b));
}

/// The pointer `#/definitions/<name>`.
pub open spec fn definition_pointer(name: Seq<char>) -> Seq<char> {
    "#/definitions/"@ + name
}

/// A pointer `#/definitions/<name>` addresses the entry `name` of the root's `definitions`
/// object; where that object has no such entry, and no `definitions` member of its own to
/// fall back on, resolution fails.
pub proof fn lemma_resolve_definition(root: Json, name: Seq<char>)
    requires
        forall|k: int| 0 <= k < name.len() ==> name[k] != '/',
        member(root, definitions_key()) is Some,
    ensures
        member(member(root, definitions_key())->0, name) matches Some(f) ==> resolution(
            root,
            definition_pointer(name),
        ) == Some(f),
        member(member(root, definitions_key())->0, name) is None && member(
            member(root, definitions_key())->0,
            definitions_key(),
        ) is None ==> resolution(root, definition_pointer(name)) is None,
{
    reveal_strlit("#/definitions/");
    reveal_strlit("definitions");
    reveal_strlit("#");
    let hash = seq!['#'];
    let d = definitions_key();
    assert(hash.drop_last() =~= Seq::<char>::empty());
    assert(split_slash(Seq::<char>::empty()) == seq![Seq::<char>::empty()]);
    assert(Seq::<char>::empty().push('#') =~= hash);
    assert(split_slash(hash) =~= seq![hash]);
    assert forall|k: int| 0 <= k < d.len() implies d[k] != '/' by {
    }
    lemma_split_segment(hash, d);
    let head = hash.push('/') + d;
    lemma_split_segment(head, name);
    assert(definition_pointer(name) =~= head.push('/') + name);
    let parts = split_slash(definition_pointer(name));
    assert(parts =~= seq![hash, d, name]);
    assert("#"@ =~= hash);
    let segs = parts.drop_first();
    assert(segs =~= seq![d, name]);
    assert(segs.drop_first() =~= seq![name]);
    assert(seq![name].drop_first() =~= Seq::<Seq<char>>::empty());
    let defs = member(root, d)->0;
    assert(walk(root, segs) == walk(defs, seq![name]));
    if let Some(f) = member(defs, name) {
        assert(walk(f, Seq::<Seq<char>>::empty()) == Some(f));
        assert(walk(defs, seq![name]) == Some(f));
    }
}

} // verus!

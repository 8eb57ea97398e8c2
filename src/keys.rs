use vstd::prelude::*;

verus! {

/// The first key after `key` in byte order: `key` followed by a zero byte.
pub fn next_key(key: &[u8]) -> (r: Vec<u8>)
    requires
        key@.len() < usize::MAX,
    ensures
        r@ == key@.push(0u8),
{
    let mut v: Vec<u8> = Vec::with_capacity(key.len() + 1);
    let mut i: usize = 0;
    while i < key.len()
        invariant
            i <= key@.len(),
            v@ == key@.subrange(0, i as int),
        decreases key@.len() - i,
    {
        v.push(key[i]);
        i = i + 1;
    }
    assert(key@.subrange(0, key@.len() as int) =~= key@);
    v.push(0);
    v
}

/// The length of `s` once its trailing `0xFF` bytes are dropped.
pub open spec fn stripped_len(s: Seq<u8>) -> nat
    decreases s.len(),
{
    if s.len() == 0 {
        0
    } else if s.last() == 0xFFu8 {
        stripped_len(s.drop_last())
    } else {
        s.len()
    }
}

/// The smallest key greater than every key that starts with `s`: drop the
/// trailing `0xFF` bytes, then increment the last byte.
pub open spec fn spec_advance(s: Seq<u8>) -> Seq<u8> {
    let l = stripped_len(s) as int;
    s.subrange(0, l - 1).push((s[l - 1] + 1) as u8)
}

proof fn lemma_stripped_len(s: Seq<u8>, l: int)
    requires
        0 <= l <= s.len(),
        forall|i: int| l <= i < s.len() ==> s[i] == 0xFFu8,
        l == 0 || s[l - 1] != 0xFFu8,
    ensures
        stripped_len(s) == l,
    decreases s.len(),
{
    if s.len() > l {
        assert(s.last() == 0xFFu8);
        lemma_stripped_len(s.drop_last(), l);
    }
}

/// The end of the range of keys that start with `key`. A key made only of
/// `0xFF` bytes has no such end and is not accepted.
pub fn advance(key: Vec<u8>) -> (r: Vec<u8>)
    requires
        stripped_len(key@) > 0,
    ensures
        r@ == spec_advance(key@),
{
    let mut key = key;
    let mut l: usize = key.len();
    while l > 0 && key[l - 1] == 0xFF
        invariant
            l <= key@.len(),
            forall|i: int| l <= i < key@.len() ==> key@[i] == 0xFFu8,
        decreases l,
    {
        l = l - 1;
    }
    proof {
        lemma_stripped_len(key@, l as int);
    }
    let ghost orig = key@;
    let b = key[l - 1];
    key.set(l - 1, b + 1);
    key.truncate(l);
    assert(key@ =~= spec_advance(orig));
    key
}

/// Adds one to `s` read as a big-endian number, wrapping to all zeros.
pub open spec fn spec_increment(s: Seq<u8>) -> Seq<u8>
    decreases s.len(),
{
    if s.len() == 0 {
        s
    } else if s.last() == 0xFFu8 {
        spec_increment(s.drop_last()).push(0u8)
    } else {
        s.drop_last().push((s.last() + 1) as u8)
    }
}

proof fn lemma_increment_split(s: Seq<u8>, i: int)
    requires
        0 <= i <= s.len(),
        forall|k: int| i <= k < s.len() ==> s[k] == 0xFFu8,
    ensures
        spec_increment(s) == spec_increment(s.subrange(0, i)) + Seq::new(
            (s.len() - i) as nat,
            |k: int| 0u8,
        ),
    decreases s.len() - i,
{
    if i < s.len() {
        lemma_increment_split(s.drop_last(), i);
        assert(s.drop_last().subrange(0, i) =~= s.subrange(0, i));
        assert(spec_increment(s) == spec_increment(s.drop_last()).push(0u8));
        assert(Seq::new((s.len() - 1 - i) as nat, |k: int| 0u8).push(0u8) =~= Seq::new(
            (s.len() - i) as nat,
            |k: int| 0u8,
        ));
        assert((spec_increment(s.subrange(0, i)) + Seq::new(
            (s.len() - 1 - i) as nat,
            |k: int| 0u8,
        )).push(0u8) =~= spec_increment(s.subrange(0, i)) + Seq::new(
            (s.len() - i) as nat,
            |k: int| 0u8,
        ));
    } else {
        assert(s.subrange(0, i) =~= s);
        assert(spec_increment(s) + Seq::new(0, |k: int| 0u8) =~= spec_increment(s));
    }
}

/// Moves a packed tuple key to the first key after all keys that extend it:
/// adds one to the key read as a big-endian number, carrying from the end.
pub fn advance_tuple_key(key: &mut Vec<u8>)
    ensures
        final(key)@ == spec_increment(old(key)@),
{
    let ghost orig = key@;
    let mut i: usize = key.len();
    let mut done = false;
    while i > 0 && !done
        invariant
            i <= orig.len(),
            key@.len() == orig.len(),
            !done ==> key@ == orig.subrange(0, i as int) + Seq::new(
                (orig.len() - i) as nat,
                |k: int| 0u8,
            ),
            !done ==> forall|k: int| i <= k < orig.len() ==> orig[k] == 0xFFu8,
            done ==> key@ == spec_increment(orig),
        decreases i + if done {
            0int
        } else {
            1int
        },
    {
        let b = key[i - 1];
        let nb: u8 = if b == 0xFF {
            0
        } else {
            b + 1
        };
        proof {
            assert(key@[i - 1] == orig[i - 1]);
        }
        key.set(i - 1, nb);
        if nb != 0 {
            proof {
                lemma_increment_split(orig, i as int);
                let pre = orig.subrange(0, i as int);
                assert(pre.last() == b);
                assert(pre.drop_last() =~= orig.subrange(0, i - 1));
                assert(key@ =~= spec_increment(orig));
            }
            done = true;
        } else {
            proof {
                assert(key@ =~= orig.subrange(0, i - 1) + Seq::new(
                    (orig.len() - (i - 1)) as nat,
                    |k: int| 0u8,
                ));
            }
            i = i - 1;
        }
    }
    proof {
        if !done {
            lemma_increment_split(orig, 0);
            assert(orig.subrange(0, 0) =~= Seq::<u8>::empty());
            assert(key@ =~= spec_increment(orig));
        }
    }
}

} // verus!

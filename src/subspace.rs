use vstd::prelude::*;

use vstd::arithmetic::div_mod::{lemma_fundamental_div_mod, lemma_mod_pos_bound};

use crate::keys::{advance, spec_advance, stripped_len};

verus! {

/// `256` to the power `n`.
pub open spec fn pow256(n: nat) -> int
    decreases n,
{
    if n == 0 {
        1
    } else {
        256 * pow256((n - 1) as nat)
    }
}

/// The `n` low bytes of `x`, most significant first.
pub open spec fn be_bytes(x: int, n: nat) -> Seq<u8>
    decreases n,
{
    if n == 0 {
        Seq::empty()
    } else {
        be_bytes(x / 256, (n - 1) as nat).push((x % 256) as u8)
    }
}

/// The value of `s` read as a big-endian number.
pub open spec fn be_value(s: Seq<u8>) -> int
    decreases s.len(),
{
    if s.len() == 0 {
        0
    } else {
        be_value(s.drop_last()) * 256 + s.last()
    }
}

proof fn lemma_pow256_positive(n: nat)
    ensures
        pow256(n) >= 1,
    decreases n,
{
    if n > 0 {
        lemma_pow256_positive((n - 1) as nat);
    }
}

proof fn lemma_be_len(x: int, n: nat)
    ensures
        be_bytes(x, n).len() == n,
    decreases n,
{
    if n > 0 {
        lemma_be_len(x / 256, (n - 1) as nat);
    }
}

proof fn lemma_be_value_bounds(s: Seq<u8>)
    ensures
        0 <= be_value(s) < pow256(s.len()),
    decreases s.len(),
{
    if s.len() > 0 {
        lemma_be_value_bounds(s.drop_last());
        let v = be_value(s.drop_last());
        let p = pow256((s.len() - 1) as nat);
        let b = s.last() as int;
        assert(v * 256 + b < 256 * p) by (nonlinear_arith)
            requires
                0 <= v < p,
                0 <= b < 256,
        ;
        assert(v * 256 + b >= 0) by (nonlinear_arith)
            requires
                0 <= v,
                0 <= b,
        ;
    }
}

proof fn lemma_value_of_bytes(x: int, n: nat)
    requires
        0 <= x < pow256(n),
    ensures
        be_value(be_bytes(x, n)) == x,
    decreases n,
{
    if n > 0 {
        let q = x / 256;
        let r = x % 256;
        let p = pow256((n - 1) as nat);
        lemma_fundamental_div_mod(x, 256);
        lemma_mod_pos_bound(x, 256);
        assert(0 <= q < p) by (nonlinear_arith)
            requires
                x == 256 * q + r,
                0 <= r < 256,
                0 <= x < 256 * p,
        ;
        lemma_value_of_bytes(q, (n - 1) as nat);
        let s = be_bytes(x, n);
        assert(s.drop_last() == be_bytes(q, (n - 1) as nat));
        assert(s.last() == r as u8);
        assert((r as u8) as int == r);
    }
}

proof fn lemma_bytes_of_value(s: Seq<u8>)
    ensures
        be_bytes(be_value(s), s.len()) == s,
    decreases s.len(),
{
    if s.len() > 0 {
        let v = be_value(s.drop_last());
        let b = s.last() as int;
        lemma_be_value_bounds(s.drop_last());
        assert((v * 256 + b) / 256 == v && (v * 256 + b) % 256 == b) by (nonlinear_arith)
            requires
                0 <= b < 256,
                0 <= v,
        ;
        lemma_bytes_of_value(s.drop_last());
        assert(be_bytes(be_value(s), s.len()) =~= s);
    }
}

proof fn lemma_be_value_concat(a: Seq<u8>, b: Seq<u8>)
    ensures
        be_value(a + b) == be_value(a) * pow256(b.len()) + be_value(b),
    decreases b.len(),
{
    if b.len() == 0 {
        assert(a + b =~= a);
    } else {
        lemma_be_value_concat(a, b.drop_last());
        assert((a + b).drop_last() =~= a + b.drop_last());
        assert((a + b).last() == b.last());
        let va = be_value(a);
        let p = pow256((b.len() - 1) as nat);
        let vb = be_value(b.drop_last());
        assert((va * p + vb) * 256 + b.last() == va * (256 * p) + (vb * 256 + b.last())) by (
        nonlinear_arith);
    }
}

/// Appends the `n` low bytes of `x`, most significant first.
fn push_be(out: &mut Vec<u8>, x: u128, n: usize)
    ensures
        final(out)@ == old(out)@ + be_bytes(x as int, n as nat),
    decreases n,
{
    if n > 0 {
        push_be(out, x / 256, n - 1);
        out.push((x % 256) as u8);
        proof {
            assert(((x / 256) as u128) as int == (x as int) / 256);
        }
    }
}

/// Reads `n <= 8` bytes at `pos` as a big-endian number.
fn read_be(buf: &[u8], pos: usize, n: usize) -> (r: u64)
    requires
        n <= 8,
        pos + n <= buf@.len(),
    ensures
        r == be_value(buf@.subrange(pos as int, pos + n)),
{
    let len = buf.len();
    let mut acc: u64 = 0;
    let mut k: usize = 0;
    proof {
        reveal_with_fuel(pow256, 9);
        assert(pow256(8) == 0x1_0000_0000_0000_0000);
        assert(buf@.subrange(pos as int, pos as int) =~= Seq::<u8>::empty());
    }
    while k < n
        invariant
            k <= n <= 8,
            pos + n <= buf@.len(),
            len == buf@.len(),
            acc == be_value(buf@.subrange(pos as int, pos + k)),
            pow256(8) == 0x1_0000_0000_0000_0000,
        decreases n - k,
    {
        let ghost s = buf@.subrange(pos as int, pos + k);
        proof {
            lemma_be_value_bounds(s);
            lemma_pow_monotone(k as nat, 7);
        }
        assert(pos + k < buf@.len());
        let b = buf[pos + k];
        assert(acc * 256 + b < 0x1_0000_0000_0000_0000) by (nonlinear_arith)
            requires
                acc < pow256(k as nat),
                pow256(k as nat) <= pow256(7),
                256 * pow256(7) == 0x1_0000_0000_0000_0000,
                b < 256,
        {
        }
        acc = acc * 256 + b as u64;
        proof {
            let t = buf@.subrange(pos as int, pos + k + 1);
            assert(t.drop_last() =~= s);
        }
        k = k + 1;
    }
    acc
}

proof fn lemma_pow_monotone(a: nat, b: nat)
    requires
        a <= b,
    ensures
        pow256(a) <= pow256(b),
    decreases b,
{
    if a < b {
        lemma_pow_monotone(a, (b - 1) as nat);
        lemma_pow256_positive((b - 1) as nat);
    }
}

/// A buffer that keys are packed into.
pub struct Packer {
    pub buffer: Vec<u8>,
}

impl Packer {
    /// A packer that appends to `buffer`.
    pub fn new(buffer: Vec<u8>) -> (r: Packer)
        ensures
            r.buffer@ == buffer@,
    {
        Packer { buffer }
    }
}

/// A value with an order-preserving, self-delimiting byte encoding.
pub trait Pack: Sized {
    /// The bytes that stand for the value.
    spec fn encoding(&self) -> Seq<u8>;

    /// Appends the value's encoding.
    fn pack(&self, packer: &mut Packer)
        ensures
            final(packer).buffer@ == old(packer).buffer@ + self.encoding(),
    ;

    /// Reads a value at `pos`, giving it with the position just past it.
    /// It finds every value whose encoding stands there.
    fn unpack(buffer: &[u8], pos: usize) -> (r: Option<(Self, usize)>)
        requires
            pos <= buffer@.len(),
        ensures
            r matches Some((v, end)) ==> pos <= end <= buffer@.len() && buffer@.subrange(
                pos as int,
                end as int,
            ) == v.encoding(),
            forall|v: Self|
                pos + v.encoding().len() <= buffer@.len() && buffer@.subrange(
                    pos as int,
                    pos + v.encoding().len(),
                ) == #[trigger] v.encoding() ==> r == Some((v, (pos + v.encoding().len()) as usize)),
    ;
}

impl Pack for u32 {
    open spec fn encoding(&self) -> Seq<u8> {
        be_bytes(*self as int, 4)
    }

    fn pack(&self, packer: &mut Packer) {
        push_be(&mut packer.buffer, *self as u128, 4);
    }

    fn unpack(buffer: &[u8], pos: usize) -> (r: Option<(Self, usize)>) {
        proof {
            reveal_with_fuel(pow256, 5);
            assert forall|v: u32| #[trigger] v.encoding().len() == 4 by {
                lemma_be_len(v as int, 4);
            }
        }
        if buffer.len() - pos >= 4 {
            let x = read_be(buffer, pos, 4);
            proof {
                let s = buffer@.subrange(pos as int, pos + 4);
                lemma_be_value_bounds(s);
                lemma_bytes_of_value(s);
                assert forall|v: u32|
                    pos + v.encoding().len() <= buffer@.len() && buffer@.subrange(
                        pos as int,
                        pos + v.encoding().len(),
                    ) == #[trigger] v.encoding() implies v == x as u32 by {
                    lemma_value_of_bytes(v as int, 4);
                }
            }
            Some((x as u32, pos + 4))
        } else {
            None
        }
    }
}

impl Pack for u64 {
    open spec fn encoding(&self) -> Seq<u8> {
        be_bytes(*self as int, 8)
    }

    fn pack(&self, packer: &mut Packer) {
        push_be(&mut packer.buffer, *self as u128, 8);
    }

    fn unpack(buffer: &[u8], pos: usize) -> (r: Option<(Self, usize)>) {
        proof {
            reveal_with_fuel(pow256, 9);
            assert forall|v: u64| #[trigger] v.encoding().len() == 8 by {
                lemma_be_len(v as int, 8);
            }
        }
        if buffer.len() - pos >= 8 {
            let x = read_be(buffer, pos, 8);
            proof {
                let s = buffer@.subrange(pos as int, pos + 8);
                lemma_bytes_of_value(s);
                assert forall|v: u64|
                    pos + v.encoding().len() <= buffer@.len() && buffer@.subrange(
                        pos as int,
                        pos + v.encoding().len(),
                    ) == #[trigger] v.encoding() implies v == x by {
                    lemma_value_of_bytes(v as int, 8);
                }
            }
            Some((x, pos + 8))
        } else {
            None
        }
    }
}

impl Pack for u128 {
    open spec fn encoding(&self) -> Seq<u8> {
        be_bytes(*self as int, 16)
    }

    fn pack(&self, packer: &mut Packer) {
        push_be(&mut packer.buffer, *self, 16);
    }

    fn unpack(buffer: &[u8], pos: usize) -> (r: Option<(Self, usize)>) {
        proof {
            reveal_with_fuel(pow256, 17);
            assert forall|v: u128| #[trigger] v.encoding().len() == 16 by {
                lemma_be_len(v as int, 16);
            }
        }
        if buffer.len() - pos >= 16 {
            let hi = read_be(buffer, pos, 8);
            let lo = read_be(buffer, pos + 8, 8);
            let x: u128 = (hi as u128) * 0x1_0000_0000_0000_0000u128 + (lo as u128);
            proof {
                let s = buffer@.subrange(pos as int, pos + 16);
                let a = buffer@.subrange(pos as int, pos + 8);
                let b = buffer@.subrange(pos + 8, pos + 16);
                assert(s =~= a + b);
                lemma_be_value_concat(a, b);
                assert(x as int == be_value(s));
                lemma_bytes_of_value(s);
                assert forall|v: u128|
                    pos + v.encoding().len() <= buffer@.len() && buffer@.subrange(
                        pos as int,
                        pos + v.encoding().len(),
                    ) == #[trigger] v.encoding() implies v == x by {
                    lemma_value_of_bytes(v as int, 16);
                }
            }
            Some((x, pos + 16))
        } else {
            None
        }
    }
}

impl<A: Pack> Pack for (A,) {
    open spec fn encoding(&self) -> Seq<u8> {
        self.0.encoding()
    }

    fn pack(&self, packer: &mut Packer) {
        self.0.pack(packer);
    }

    fn unpack(buffer: &[u8], pos: usize) -> (r: Option<(Self, usize)>) {
        match A::unpack(buffer, pos) {
            Some((a, end)) => {
                proof {
                    assert forall|v: (A,)|
                        pos + v.encoding().len() <= buffer@.len() && buffer@.subrange(
                            pos as int,
                            pos + v.encoding().len(),
                        ) == #[trigger] v.encoding() implies v == (a,) && end == pos
                        + v.encoding().len() by {
                        assert(buffer@.subrange(pos as int, pos + v.0.encoding().len())
                            == v.0.encoding());
                    }
                }
                Some(((a,), end))
            },
            None => {
                proof {
                    assert forall|v: (A,)|
                        !(pos + v.encoding().len() <= buffer@.len() && buffer@.subrange(
                            pos as int,
                            pos + v.encoding().len(),
                        ) == #[trigger] v.encoding()) by {
                        if pos + v.0.encoding().len() <= buffer@.len() && buffer@.subrange(
                            pos as int,
                            pos + v.0.encoding().len(),
                        ) == v.0.encoding() {
                        }
                    }
                }
                None
            },
        }
    }
}

impl<A: Pack, B: Pack> Pack for (A, B) {
    open spec fn encoding(&self) -> Seq<u8> {
        self.0.encoding() + self.1.encoding()
    }

    fn pack(&self, packer: &mut Packer) {
        self.0.pack(packer);
        self.1.pack(packer);
        assert(packer.buffer@ =~= old(packer).buffer@ + self.encoding());
    }

    fn unpack(buffer: &[u8], pos: usize) -> (r: Option<(Self, usize)>) {
        proof {
            assert forall|v: (A, B)|
                pos + v.encoding().len() <= buffer@.len() && buffer@.subrange(
                    pos as int,
                    pos + v.encoding().len(),
                ) == #[trigger] v.encoding() implies {
                &&& pos + v.0.encoding().len() <= buffer@.len()
                &&& buffer@.subrange(pos as int, pos + v.0.encoding().len()) == v.0.encoding()
                &&& pos + v.0.encoding().len() + v.1.encoding().len() <= buffer@.len()
                &&& buffer@.subrange(
                    pos + v.0.encoding().len(),
                    pos + v.0.encoding().len() + v.1.encoding().len(),
                ) == v.1.encoding()
            } by {
                let whole = buffer@.subrange(pos as int, pos + v.encoding().len());
                assert(buffer@.subrange(pos as int, pos + v.0.encoding().len()) =~= whole.subrange(
                    0,
                    v.0.encoding().len() as int,
                ));
                assert(buffer@.subrange(
                    pos + v.0.encoding().len(),
                    pos + v.0.encoding().len() + v.1.encoding().len(),
                ) =~= whole.subrange(v.0.encoding().len() as int, whole.len() as int));
                assert(v.encoding().subrange(0, v.0.encoding().len() as int) =~= v.0.encoding());
                assert(v.encoding().subrange(
                    v.0.encoding().len() as int,
                    v.encoding().len() as int,
                ) =~= v.1.encoding());
            }
        }
        match A::unpack(buffer, pos) {
            Some((a, mid)) => match B::unpack(buffer, mid) {
                Some((b, end)) => {
                    proof {
                        assert(buffer@.subrange(pos as int, end as int) =~= buffer@.subrange(
                            pos as int,
                            mid as int,
                        ) + buffer@.subrange(mid as int, end as int));
                        assert forall|v: (A, B)|
                            pos + v.encoding().len() <= buffer@.len() && buffer@.subrange(
                                pos as int,
                                pos + v.encoding().len(),
                            ) == #[trigger] v.encoding() implies v == (a, b) && end == pos
                            + v.encoding().len() by {
                            assert(buffer@.subrange(pos as int, pos + v.0.encoding().len())
                                == v.0.encoding());
                            assert(buffer@.subrange(
                                mid as int,
                                mid + v.1.encoding().len(),
                            ) == v.1.encoding());
                        }
                    }
                    Some(((a, b), end))
                },
                None => {
                    proof {
                        assert forall|v: (A, B)|
                            !(pos + v.encoding().len() <= buffer@.len() && buffer@.subrange(
                                pos as int,
                                pos + v.encoding().len(),
                            ) == #[trigger] v.encoding()) by {
                            if pos + v.encoding().len() <= buffer@.len() && buffer@.subrange(
                                pos as int,
                                pos + v.encoding().len(),
                            ) == v.encoding() {
                                assert(buffer@.subrange(pos as int, pos + v.0.encoding().len())
                                    == v.0.encoding());
                                assert(buffer@.subrange(
                                    mid as int,
                                    mid + v.1.encoding().len(),
                                ) == v.1.encoding());
                            }
                        }
                    }
                    None
                },
            },
            None => {
                proof {
                    assert forall|v: (A, B)|
                        !(pos + v.encoding().len() <= buffer@.len() && buffer@.subrange(
                            pos as int,
                            pos + v.encoding().len(),
                        ) == #[trigger] v.encoding()) by {
                        if pos + v.encoding().len() <= buffer@.len() && buffer@.subrange(
                            pos as int,
                            pos + v.encoding().len(),
                        ) == v.encoding() {
                            assert(buffer@.subrange(pos as int, pos + v.0.encoding().len())
                                == v.0.encoding());
                        }
                    }
                }
                None
            },
        }
    }
}

/// Copies `src` onto the end of `out`.
fn extend_from(out: &mut Vec<u8>, src: &[u8])
    ensures
        final(out)@ == old(out)@ + src@,
{
    let ghost start = out@;
    let mut i: usize = 0;
    while i < src.len()
        invariant
            i <= src@.len(),
            out@ == start + src@.subrange(0, i as int),
        decreases src@.len() - i,
    {
        out.push(src[i]);
        proof {
            assert(start + src@.subrange(0, i + 1) =~= (start + src@.subrange(0, i as int)).push(
                src@[i as int],
            ));
        }
        i = i + 1;
    }
    assert(src@.subrange(0, src@.len() as int) =~= src@);
}

/// The byte that separates a subspace's prefix from the packed tuple.
pub const TUPLE_SEPARATOR: u8 = 0x2F;

/// A key prefix without the type of the tuples stored under it.
struct UntypedSubspace {
    prefix: Vec<u8>,
}

impl UntypedSubspace {
    /// Appends the prefix.
    fn pack(&self, packer: &mut Packer)
        ensures
            final(packer).buffer@ == old(packer).buffer@ + self.prefix@,
    {
        extend_from(&mut packer.buffer, self.prefix.as_slice());
    }

    /// The position just past the prefix when `buffer` holds it at `pos`.
    fn unpack(&self, buffer: &[u8], pos: usize) -> (r: Option<usize>)
        requires
            pos <= buffer@.len(),
        ensures
            pos + self.prefix@.len() <= buffer@.len() && buffer@.subrange(
                pos as int,
                pos + self.prefix@.len(),
            ) == self.prefix@ ==> r == Some((pos + self.prefix@.len()) as usize),
            !(pos + self.prefix@.len() <= buffer@.len() && buffer@.subrange(
                pos as int,
                pos + self.prefix@.len(),
            ) == self.prefix@) ==> r is None,
    {
        let n = self.prefix.len();
        let blen = buffer.len();
        if blen - pos < n {
            return None;
        }
        let mut i: usize = 0;
        while i < n
            invariant
                i <= n,
                n == self.prefix@.len(),
                pos + n <= buffer@.len(),
                blen == buffer@.len(),
                forall|k: int| 0 <= k < i ==> buffer@[pos + k] == self.prefix@[k],
            decreases n - i,
        {
            if buffer[pos + i] != self.prefix[i] {
                proof {
                    assert(buffer@.subrange(pos as int, pos + n)[i as int] != self.prefix@[i as int]);
                }
                return None;
            }
            i = i + 1;
        }
        assert(buffer@.subrange(pos as int, pos + n) =~= self.prefix@);
        Some(pos + n)
    }
}

/// A region of the keyspace holding tuples of type `T`: keys are the root,
/// the subspace's prefix, a separator byte, and the packed tuple.
pub struct Subspace<T> {
    inner: UntypedSubspace,
    phantom: std::marker::PhantomData<T>,
}

impl<T> Subspace<T> {
    /// The subspace's prefix.
    pub closed spec fn prefix(&self) -> Seq<u8> {
        self.inner.prefix@
    }

    /// The key of the packed tuple `args` in this subspace under `root`.
    pub open spec fn spec_key(&self, root: Seq<u8>, args: Seq<u8>) -> Seq<u8> {
        root + self.prefix() + seq![TUPLE_SEPARATOR] + args
    }

    /// The subspace with the given prefix.
    pub fn new(prefix: &[u8]) -> (r: Self)
        ensures
            r.prefix() == prefix@,
    {
        let mut bytes: Vec<u8> = Vec::new();
        extend_from(&mut bytes, prefix);
        assert(bytes@ =~= prefix@);
        Subspace { inner: UntypedSubspace { prefix: bytes }, phantom: std::marker::PhantomData }
    }

    /// The key that stores `args` under `root`.
    pub fn key(&self, root: &[u8], args: &T) -> (r: Vec<u8>) where T: Pack
        ensures
            r@ == self.spec_key(root@, args.encoding()),
    {
        let mut packer = Packer::new(Vec::new());
        extend_from(&mut packer.buffer, root);
        self.inner.pack(&mut packer);
        packer.buffer.push(TUPLE_SEPARATOR);
        args.pack(&mut packer);
        assert(packer.buffer@ =~= self.spec_key(root@, args.encoding()));
        packer.buffer
    }

    /// The range of all keys of this subspace under `root`: from the bare
    /// prefix with its separator up to the first key past all of them.
    pub fn range(&self, root: &[u8]) -> (r: (Vec<u8>, Vec<u8>))
        ensures
            r.0@ == self.spec_key(root@, Seq::empty()),
            r.1@ == spec_advance(r.0@),
    {
        let mut packer = Packer::new(Vec::new());
        extend_from(&mut packer.buffer, root);
        self.inner.pack(&mut packer);
        packer.buffer.push(TUPLE_SEPARATOR);
        let start = packer.buffer;
        assert(start@ =~= self.spec_key(root@, Seq::empty()));
        let copy = start.clone();
        proof {
            assert(copy@.last() == TUPLE_SEPARATOR);
            assert(copy@.drop_last().len() + 1 == copy@.len());
            assert(stripped_len(copy@) == copy@.len());
        }
        let end = advance(copy);
        (start, end)
    }

    /// The tuple that `key` stores, when `key` is `root`'s part followed by
    /// this subspace's prefix, the separator and exactly one packed tuple.
    pub fn decode(&self, root: &[u8], key: &[u8]) -> (r: Option<T>) where T: Pack
        requires
            root@.len() <= key@.len(),
        ensures
            r matches Some(v) ==> key@.subrange(root@.len() as int, key@.len() as int)
                == self.prefix() + seq![TUPLE_SEPARATOR] + v.encoding(),
            forall|v: T|
                key@.subrange(root@.len() as int, key@.len() as int) == self.prefix() + seq![
                    TUPLE_SEPARATOR,
                ] + #[trigger] v.encoding() ==> r == Some(v),
    {
        let start = root.len();
        let ghost rest = key@.subrange(start as int, key@.len() as int);
        let ghost p = self.prefix();
        let pos = match self.inner.unpack(key, start) {
            Some(pos) => pos,
            None => {
                proof {
                    assert forall|v: T|
                        !(rest == p + seq![TUPLE_SEPARATOR] + #[trigger] v.encoding()) by {
                        if rest == p + seq![TUPLE_SEPARATOR] + v.encoding() {
                            assert(start + p.len() <= key@.len());
                            assert(key@.subrange(start as int, start + p.len()) =~= rest.subrange(
                                0,
                                p.len() as int,
                            ));
                            assert((p + seq![TUPLE_SEPARATOR] + v.encoding()).subrange(
                                0,
                                p.len() as int,
                            ) =~= p);
                        }
                    }
                }
                return None;
            },
        };
        if pos >= key.len() || key[pos] != TUPLE_SEPARATOR {
            proof {
                assert forall|v: T| !(rest == p + seq![TUPLE_SEPARATOR] + #[trigger] v.encoding()) by {
                    if rest == p + seq![TUPLE_SEPARATOR] + v.encoding() {
                        assert(rest[p.len() as int] == TUPLE_SEPARATOR);
                    }
                }
            }
            return None;
        }
        let after = pos + 1;
        match T::unpack(key, after) {
            Some((v, end)) => {
                if end == key.len() {
                    proof {
                        assert(key@.subrange(start as int, pos as int) == p);
                        assert(rest =~= p + seq![TUPLE_SEPARATOR] + key@.subrange(
                            after as int,
                            end as int,
                        ));
                        assert forall|w: T|
                            rest == p + seq![TUPLE_SEPARATOR] + #[trigger] w.encoding() implies w
                            == v by {
                            assert(rest.len() == p.len() + 1 + w.encoding().len());
                            assert(after + w.encoding().len() == key@.len());
                            assert(key@.subrange(after as int, after + w.encoding().len())
                                =~= rest.subrange(p.len() + 1int, rest.len() as int));
                            assert((p + seq![TUPLE_SEPARATOR] + w.encoding()).subrange(
                                p.len() + 1int,
                                rest.len() as int,
                            ) =~= w.encoding());
                        }
                    }
                    Some(v)
                } else {
                    proof {
                        assert forall|w: T|
                            !(rest == p + seq![TUPLE_SEPARATOR] + #[trigger] w.encoding()) by {
                            if rest == p + seq![TUPLE_SEPARATOR] + w.encoding() {
                                assert(rest.len() == p.len() + 1 + w.encoding().len());
                                assert(after + w.encoding().len() == key@.len());
                                assert(key@.subrange(after as int, after + w.encoding().len())
                                    =~= rest.subrange(p.len() + 1int, rest.len() as int));
                                assert((p + seq![TUPLE_SEPARATOR] + w.encoding()).subrange(
                                    p.len() + 1int,
                                    rest.len() as int,
                                ) =~= w.encoding());
                            }
                        }
                    }
                    None
                }
            },
            None => {
                proof {
                    assert forall|w: T|
                        !(rest == p + seq![TUPLE_SEPARATOR] + #[trigger] w.encoding()) by {
                        if rest == p + seq![TUPLE_SEPARATOR] + w.encoding() {
                            assert(rest.len() == p.len() + 1 + w.encoding().len());
                            assert(after + w.encoding().len() == key@.len());
                            assert(key@.subrange(after as int, after + w.encoding().len())
                                =~= rest.subrange(p.len() + 1int, rest.len() as int));
                            assert((p + seq![TUPLE_SEPARATOR] + w.encoding()).subrange(
                                p.len() + 1int,
                                rest.len() as int,
                            ) =~= w.encoding());
                        }
                    }
                }
                None
            },
        }
    }
}

} // verus!

//! Dense row-major tensors over any element type, and the operations that only move elements.

use vstd::prelude::*;

verus! {

/// How many elements a tensor of this shape has.
pub open spec fn volume(shape: Seq<usize>) -> nat
    decreases shape.len(),
{
    if shape.len() == 0 {
        1
    } else {
        volume(shape.drop_last()) * (shape.last() as nat)
    }
}

/// Whether `idx` is a position in a tensor of this shape.
pub open spec fn in_bounds(shape: Seq<usize>, idx: Seq<int>) -> bool {
    idx.len() == shape.len() && forall|a: int|
        0 <= a < shape.len() ==> 0 <= #[trigger] idx[a] < shape[a]
}

/// The place of position `idx` in row-major order.
pub open spec fn ravel(shape: Seq<usize>, idx: Seq<int>) -> int
    decreases shape.len(),
{
    if shape.len() == 0 {
        0
    } else {
        ravel(shape.drop_last(), idx.drop_last()) * shape.last() + idx.last()
    }
}

/// The position that stands at place `k` in row-major order.
pub open spec fn unravel(shape: Seq<usize>, k: int) -> Seq<int>
    decreases shape.len(),
{
    if shape.len() == 0 {
        seq![]
    } else {
        unravel(shape.drop_last(), k / shape.last() as int).push(k % shape.last() as int)
    }
}

/// A dense tensor: its elements in row-major order.
#[derive(Debug, PartialEq, Eq)]
pub struct Tensor<T> {
    pub shape: Vec<usize>,
    pub data: Vec<T>,
}

impl<T> Tensor<T> {
    /// There are as many elements as the shape says.
    pub open spec fn wf(&self) -> bool {
        self.data@.len() == volume(self.shape@)
    }

    /// The element at a position.
    pub open spec fn at(&self, idx: Seq<int>) -> T {
        self.data@[ravel(self.shape@, idx)]
    }
}

/// A position's place lies within the tensor.
pub proof fn lemma_ravel_bounds(shape: Seq<usize>, idx: Seq<int>)
    requires
        in_bounds(shape, idx),
    ensures
        0 <= ravel(shape, idx) < volume(shape),
    decreases shape.len(),
{
    if shape.len() > 0 {
        let s = shape.drop_last();
        let i = idx.drop_last();
        assert forall|a: int| 0 <= a < s.len() implies 0 <= #[trigger] i[a] < s[a] by {
            assert(i[a] == idx[a]);
        }
        lemma_ravel_bounds(s, i);
        let r = ravel(s, i);
        let v = volume(s) as int;
        let n = shape.last() as int;
        let l = idx.last();
        assert(0 <= idx[shape.len() - 1] < shape[shape.len() - 1]);
        assert(0 <= r * n + l < v * n) by (nonlinear_arith)
            requires
                0 <= r < v,
                0 <= l < n,
        ;
    }
}

/// Each place is the place of its position.
pub proof fn lemma_ravel_unravel(shape: Seq<usize>, k: int)
    requires
        0 <= k < volume(shape),
    ensures
        in_bounds(shape, unravel(shape, k)),
        ravel(shape, unravel(shape, k)) == k,
    decreases shape.len(),
{
    if shape.len() > 0 {
        let s = shape.drop_last();
        let n = shape.last() as int;
        let v = volume(s) as int;
        assert(n > 0) by (nonlinear_arith)
            requires
                0 <= k < v * n,
                n >= 0,
                v >= 0,
        ;
        assert(0 <= k / n < v && 0 <= k % n < n && (k / n) * n + k % n == k) by (nonlinear_arith)
            requires
                0 <= k < v * n,
                n > 0,
        ;
        lemma_ravel_unravel(s, k / n);
        let u = unravel(shape, k);
        let h = unravel(s, k / n);
        assert(u.drop_last() =~= h);
        assert forall|a: int| 0 <= a < shape.len() implies 0 <= #[trigger] u[a] < shape[a] by {
            if a < s.len() {
                assert(u[a] == h[a]);
                assert(s[a] == shape[a]);
            }
        }
    }
}

/// Each position is the position of its place.
pub proof fn lemma_unravel_ravel(shape: Seq<usize>, idx: Seq<int>)
    requires
        in_bounds(shape, idx),
    ensures
        unravel(shape, ravel(shape, idx)) == idx,
    decreases shape.len(),
{
    if shape.len() == 0 {
        assert(idx =~= seq![]);
    } else {
        let s = shape.drop_last();
        let i = idx.drop_last();
        assert forall|a: int| 0 <= a < s.len() implies 0 <= #[trigger] i[a] < s[a] by {
            assert(i[a] == idx[a]);
        }
        lemma_unravel_ravel(s, i);
        let r = ravel(s, i);
        let n = shape.last() as int;
        let l = idx.last();
        assert(0 <= idx[shape.len() - 1] < shape[shape.len() - 1]);
        assert((r * n + l) / n == r && (r * n + l) % n == l) by (nonlinear_arith)
            requires
                0 <= l < n,
        ;
        assert(i.push(l) =~= idx);
    }
}

/// Taking one extent out of a shape divides the volume by it.
pub proof fn lemma_volume_remove(shape: Seq<usize>, k: int)
    requires
        0 <= k < shape.len(),
    ensures
        volume(shape) == volume(shape.remove(k)) * shape[k],
    decreases shape.len(),
{
    let n = shape.len();
    if k == n - 1 {
        assert(shape.remove(k) =~= shape.drop_last());
    } else {
        lemma_volume_remove(shape.drop_last(), k);
        assert(shape.remove(k).drop_last() =~= shape.drop_last().remove(k));
        assert(shape.remove(k).last() == shape.last());
        let v = volume(shape.drop_last().remove(k));
        let a = shape[k] as nat;
        let b = shape.last() as nat;
        assert((v * a) * b == (v * b) * a) by (nonlinear_arith);
    }
}

/// Whether `perm` lists every axis of a tensor of `n` axes once.
pub open spec fn is_permutation(perm: Seq<usize>, n: nat) -> bool {
    &&& perm.len() == n
    &&& forall|k: int| 0 <= k < n ==> #[trigger] perm[k] < n
    &&& forall|i: int, j: int| 0 <= i < j < n ==> #[trigger] perm[i] != #[trigger] perm[j]
}

/// The shape with its axes in the order of `perm`.
pub open spec fn permuted(shape: Seq<usize>, perm: Seq<usize>) -> Seq<usize> {
    Seq::new(perm.len(), |k: int| shape[perm[k] as int])
}

/// The position with its axes in the order of `perm`.
pub open spec fn permuted_index(idx: Seq<int>, perm: Seq<usize>) -> Seq<int> {
    Seq::new(perm.len(), |k: int| idx[perm[k] as int])
}

/// A list of `n` different numbers below `n` holds each of them.
proof fn lemma_permutation_hits(perm: Seq<usize>, n: nat, a: usize)
    requires
        is_permutation(perm, n),
        a < n,
    ensures
        exists|k: int| 0 <= k < n && #[trigger] perm[k] == a,
{
    let hit = perm.map_values(|x: usize| x as int).to_set();
    let all = vstd::set_lib::set_int_range(0, n as int);
    let ints = perm.map_values(|x: usize| x as int);
    vstd::set_lib::lemma_int_range(0, n as int);
    assert(ints.no_duplicates()) by {
        assert forall|i: int, j: int|
            0 <= i < ints.len() && 0 <= j < ints.len() && i != j implies ints[i] != ints[j] by {
            if i < j {
                assert(perm[i] != perm[j]);
            } else {
                assert(perm[j] != perm[i]);
            }
        }
    }
    ints.unique_seq_to_set();
    assert(hit.subset_of(all)) by {
        assert forall|x: int| hit.contains(x) implies all.contains(x) by {
            let k = choose|k: int| 0 <= k < ints.len() && ints[k] == x;
            assert(perm[k] < n);
        }
    }
    vstd::set_lib::lemma_subset_equality(hit, all);
    assert(hit.contains(a as int));
    let k = choose|k: int| 0 <= k < ints.len() && ints[k] == a as int;
    assert(perm[k] == a);
}

/// Reordering the axes keeps the volume.
pub proof fn lemma_volume_permuted(shape: Seq<usize>, perm: Seq<usize>)
    requires
        is_permutation(perm, shape.len()),
    ensures
        volume(permuted(shape, perm)) == volume(shape),
    decreases shape.len(),
{
    let n = shape.len();
    let out = permuted(shape, perm);
    if n > 0 {
        let last = (n - 1) as usize;
        assert(n - 1 <= usize::MAX) by {
            lemma_axes_fit(perm, n);
        }
        lemma_permutation_hits(perm, n, last);
        let k = choose|k: int| 0 <= k < n && #[trigger] perm[k] == last;
        let rest = perm.remove(k);
        let s = shape.drop_last();
        assert(is_permutation(rest, (n - 1) as nat)) by {
            assert forall|i: int| 0 <= i < n - 1 implies #[trigger] rest[i] < n - 1 by {
                let j = if i < k {
                    i
                } else {
                    i + 1
                };
                assert(rest[i] == perm[j]);
                assert(perm[j] < n);
                if i < k {
                    assert(perm[i] != perm[k]);
                } else {
                    assert(perm[k] != perm[i + 1]);
                }
            }
            assert forall|i: int, j: int| 0 <= i < j < n - 1 implies #[trigger] rest[i]
                != #[trigger] rest[j] by {
                let i2 = if i < k {
                    i
                } else {
                    i + 1
                };
                let j2 = if j < k {
                    j
                } else {
                    j + 1
                };
                assert(rest[i] == perm[i2] && rest[j] == perm[j2]);
                assert(perm[i2] != perm[j2]);
            }
        }
        lemma_volume_permuted(s, rest);
        lemma_volume_remove(out, k);
        assert(out.remove(k) =~= permuted(s, rest)) by {
            assert forall|i: int| 0 <= i < n - 1 implies out.remove(k)[i] == permuted(s, rest)[i] by {
                assert(rest[i] < n - 1);
                let j = if i < k {
                    i
                } else {
                    i + 1
                };
                assert(rest[i] == perm[j]);
                assert(out.remove(k)[i] == out[j]);
            }
        }
    } else {
        assert(out =~= shape);
    }
}

/// The number of axes fits into a machine word where they are listed.
proof fn lemma_axes_fit(perm: Seq<usize>, n: nat)
    requires
        is_permutation(perm, n),
    ensures
        n <= usize::MAX + 1,
{
    if n > usize::MAX + 1 {
        let ints = perm.map_values(|x: usize| x as int);
        let hit = ints.to_set();
        let all = vstd::set_lib::set_int_range(0, usize::MAX + 1);
        vstd::set_lib::lemma_int_range(0, usize::MAX + 1);
        assert(ints.no_duplicates()) by {
            assert forall|i: int, j: int|
                0 <= i < ints.len() && 0 <= j < ints.len() && i != j implies ints[i] != ints[j] by {
                if i < j {
                    assert(perm[i] != perm[j]);
                } else {
                    assert(perm[j] != perm[i]);
                }
            }
        }
        ints.unique_seq_to_set();
        assert(hit.subset_of(all)) by {
            assert forall|x: int| hit.contains(x) implies all.contains(x) by {
                let k = choose|k: int| 0 <= k < ints.len() && ints[k] == x;
            }
        }
        vstd::set_lib::lemma_len_subset(hit, all);
    }
}

/// The position that stands at place `k`, as machine words.
fn position(shape: &Vec<usize>, k: usize) -> (r: Vec<usize>)
    requires
        k < volume(shape@),
    ensures
        r@.len() == shape@.len(),
        r@.map_values(|x: usize| x as int) == unravel(shape@, k as int),
{
    let n = shape.len();
    let mut out: Vec<usize> = vec![0; n];
    let mut rest: usize = k;
    let mut a: usize = n;
    assert(shape@.take(n as int) =~= shape@);
    while a > 0
        invariant
            a <= n,
            n == shape.len(),
            out.len() == n,
            rest < volume(shape@.take(a as int)),
            unravel(shape@, k as int) == unravel(shape@.take(a as int), rest as int)
                + out@.map_values(|x: usize| x as int).subrange(a as int, n as int),
        decreases a,
    {
        let ghost s = shape@.take(a as int);
        let ghost before = out@.map_values(|x: usize| x as int);
        proof {
            assert(s.drop_last() =~= shape@.take(a - 1));
            assert(s.last() == shape@[a - 1]);
            let v = volume(s.drop_last()) as int;
            let m = shape@[a - 1] as int;
            let r = rest as int;
            assert(m > 0) by (nonlinear_arith)
                requires
                    0 <= r < v * m,
                    m >= 0,
                    v >= 0,
            ;
            assert(0 <= r / m < v) by (nonlinear_arith)
                requires
                    0 <= r < v * m,
                    m > 0,
            ;
        }
        let m = shape[a - 1];
        out[a - 1] = rest % m;
        proof {
            let after = out@.map_values(|x: usize| x as int);
            let r = rest as int;
            assert(unravel(s, r) == unravel(s.drop_last(), r / m as int).push(r % m as int));
            assert(unravel(s, r) + before.subrange(a as int, n as int) =~= unravel(
                s.drop_last(),
                r / m as int,
            ) + after.subrange(a - 1, n as int));
        }
        rest = rest / m;
        a -= 1;
    }
    proof {
        assert(shape@.take(0) =~= Seq::<usize>::empty());
        assert(out@.map_values(|x: usize| x as int).subrange(0, n as int) =~= out@.map_values(
            |x: usize| x as int,
        ));
        assert(unravel(shape@.take(0), rest as int) =~= Seq::<int>::empty());
    }
    out
}

/// The place of a position.
fn place(shape: &Vec<usize>, idx: &Vec<usize>) -> (r: usize)
    requires
        in_bounds(shape@, idx@.map_values(|x: usize| x as int)),
        volume(shape@) <= usize::MAX,
    ensures
        r == ravel(shape@, idx@.map_values(|x: usize| x as int)),
        r < volume(shape@),
{
    let ghost iv = idx@.map_values(|x: usize| x as int);
    let mut r: usize = 0;
    let mut a: usize = 0;
    while a < shape.len()
        invariant
            a <= shape.len(),
            iv == idx@.map_values(|x: usize| x as int),
            in_bounds(shape@, iv),
            volume(shape@) <= usize::MAX,
            r == ravel(shape@.take(a as int), iv.take(a as int)),
        decreases shape.len() - a,
    {
        proof {
            let s = shape@.take(a + 1);
            let i = iv.take(a + 1);
            assert(s.drop_last() =~= shape@.take(a as int));
            assert(i.drop_last() =~= iv.take(a as int));
            assert forall|b: int| 0 <= b < s.len() implies 0 <= #[trigger] i[b] < s[b] by {
                assert(i[b] == iv[b]);
            }
            lemma_ravel_bounds(s, i);
            lemma_volume_prefix(shape@, iv, a + 1);
            assert(i.last() == idx@[a as int]);
            assert(s.last() == shape@[a as int]);
            assert(0 <= iv[a as int] < shape@[a as int]);
            let m = shape@[a as int] as int;
            assert(r * m <= r * m + idx@[a as int]);
            assert(r * m >= 0) by (nonlinear_arith)
                requires
                    r >= 0,
                    m >= 0,
            ;
        }
        r = r * shape[a] + idx[a];
        a += 1;
    }
    proof {
        assert(shape@.take(a as int) =~= shape@);
        assert(iv.take(a as int) =~= iv);
        lemma_ravel_bounds(shape@, iv);
    }
    r
}

/// The volume of the first axes is no larger than that of all, where the tensor has a position.
proof fn lemma_volume_prefix(shape: Seq<usize>, idx: Seq<int>, a: int)
    requires
        in_bounds(shape, idx),
        0 <= a <= shape.len(),
    ensures
        volume(shape.take(a)) <= volume(shape),
    decreases shape.len() - a,
{
    if a == shape.len() {
        assert(shape.take(a) =~= shape);
    } else {
        lemma_volume_prefix(shape, idx, a + 1);
        let s = shape.take(a + 1);
        assert(s.drop_last() =~= shape.take(a));
        assert(s.last() == shape[a]);
        assert(0 <= idx[a] < shape[a]);
        let v = volume(shape.take(a));
        let m = shape[a] as nat;
        assert(v <= v * m) by (nonlinear_arith)
            requires
                m >= 1,
        ;
    }
}

/// The volume of a shape, where it fits into a machine word.
pub fn checked_volume(shape: &Vec<usize>) -> (r: Option<usize>)
    ensures
        match r {
            Some(v) => v == volume(shape@),
            None => volume(shape@) > usize::MAX,
        },
{
    let mut zero = false;
    let mut z: usize = 0;
    while z < shape.len()
        invariant
            z <= shape.len(),
            zero <==> exists|k: int| 0 <= k < z && #[trigger] shape@[k] == 0,
        decreases shape.len() - z,
    {
        if shape[z] == 0 {
            zero = true;
        }
        z += 1;
    }
    if zero {
        proof {
            let k = choose|k: int| 0 <= k < shape.len() && #[trigger] shape@[k] == 0;
            lemma_volume_remove(shape@, k);
            let v = volume(shape@.remove(k));
            assert(v * 0 == 0);
        }
        return Some(0);
    }
    let mut r: usize = 1;
    let mut a: usize = 0;
    while a < shape.len()
        invariant
            a <= shape.len(),
            forall|k: int| 0 <= k < shape.len() ==> #[trigger] shape@[k] != 0,
            r == volume(shape@.take(a as int)),
        decreases shape.len() - a,
    {
        proof {
            assert(shape@.take(a + 1).drop_last() =~= shape@.take(a as int));
            assert(shape@.take(a + 1).last() == shape@[a as int]);
        }
        match r.checked_mul(shape[a]) {
            Some(p) => {
                r = p;
            },
            None => {
                proof {
                    let ones = Seq::new(shape@.len(), |i: int| 0int);
                    assert(in_bounds(shape@, ones)) by {
                        assert forall|i: int| 0 <= i < shape@.len() implies 0 <= #[trigger] ones[i]
                            < shape@[i] by {
                            assert(shape@[i] != 0);
                        }
                    }
                    lemma_volume_prefix(shape@, ones, a + 1);
                }
                return None;
            },
        }
        a += 1;
    }
    assert(shape@.take(a as int) =~= shape@);
    Some(r)
}

impl<T: Copy> Tensor<T> {
    /// The element at a position.
    pub fn get(&self, idx: &Vec<usize>) -> (r: T)
        requires
            self.wf(),
            in_bounds(self.shape@, idx@.map_values(|x: usize| x as int)),
        ensures
            r == self.at(idx@.map_values(|x: usize| x as int)),
    {
        let n: usize = self.data.len();
        let p = place(&self.shape, idx);
        self.data[p]
    }

    /// The same elements in row-major order under another shape, where it has as many.
    pub fn reshape(&self, shape: Vec<usize>) -> (r: Option<Tensor<T>>)
        requires
            self.wf(),
        ensures
            r is Some <==> volume(shape@) == volume(self.shape@),
            r matches Some(t) ==> t.wf() && t.shape@ == shape@ && t.data@ == self.data@,
    {
        match checked_volume(&shape) {
            Some(v) => if v == self.data.len() {
                let mut data: Vec<T> = Vec::new();
                let mut i: usize = 0;
                while i < self.data.len()
                    invariant
                        i <= self.data.len(),
                        data@ == self.data@.take(i as int),
                    decreases self.data.len() - i,
                {
                    data.push(self.data[i]);
                    assert(self.data@.take(i + 1) =~= self.data@.take(i as int).push(
                        self.data@[i as int],
                    ));
                    i += 1;
                }
                assert(self.data@.take(i as int) =~= self.data@);
                Some(Tensor { shape, data })
            } else {
                None
            },
            None => {
                let n: usize = self.data.len();
                None
            },
        }
    }

    /// The tensor with its axes in the order of `perm`.
    pub fn transpose_axes(&self, perm: &Vec<usize>) -> (r: Tensor<T>)
        requires
            self.wf(),
            is_permutation(perm@, self.shape@.len()),
        ensures
            r.wf(),
            r.shape@ == permuted(self.shape@, perm@),
            forall|idx: Seq<int>| #[trigger]
                in_bounds(self.shape@, idx) ==> r.at(permuted_index(idx, perm@)) == self.at(idx),
    {
        let n: usize = self.shape.len();
        let mut shape: Vec<usize> = Vec::new();
        let mut inv: Vec<usize> = vec![0; n];
        let mut k: usize = 0;
        while k < n
            invariant
                k <= n,
                n == self.shape.len(),
                is_permutation(perm@, n as nat),
                inv.len() == n,
                shape@ == permuted(self.shape@, perm@).take(k as int),
                forall|j: int|
                    0 <= j < k ==> #[trigger] inv@[perm@[j] as int] == j,
            decreases n - k,
        {
            let p = perm[k];
            shape.push(self.shape[p]);
            inv[p] = k;
            proof {
                assert(permuted(self.shape@, perm@).take(k + 1) =~= permuted(
                    self.shape@,
                    perm@,
                ).take(k as int).push(self.shape@[p as int]));
                assert forall|j: int| 0 <= j < k + 1 implies #[trigger] inv@[perm@[j] as int] == j by {
                    if j < k {
                        assert(perm@[j] != perm@[k as int]);
                    }
                }
            }
            k += 1;
        }
        assert(shape@ =~= permuted(self.shape@, perm@));
        proof {
            lemma_volume_permuted(self.shape@, perm@);
        }
        let total: usize = self.data.len();
        let mut data: Vec<T> = Vec::new();
        let mut i: usize = 0;
        while i < total
            invariant
                i <= total,
                total == self.data.len(),
                self.wf(),
                n == self.shape.len(),
                is_permutation(perm@, n as nat),
                inv.len() == n,
                shape@ == permuted(self.shape@, perm@),
                volume(shape@) == total,
                forall|j: int| 0 <= j < n ==> #[trigger] inv@[perm@[j] as int] == j,
                data.len() == i,
                forall|idx: Seq<int>| #[trigger]
                    in_bounds(self.shape@, idx) && 0 <= ravel(
                        shape@,
                        permuted_index(idx, perm@),
                    ) < i ==> data@[ravel(shape@, permuted_index(idx, perm@))] == self.at(idx),
            decreases total - i,
        {
            let out_idx = position(&shape, i);
            let ghost ov = unravel(shape@, i as int);
            proof {
                lemma_ravel_unravel(shape@, i as int);
            }
            let mut in_idx: Vec<usize> = Vec::new();
            let mut a: usize = 0;
            while a < n
                invariant
                    a <= n,
                    n == self.shape.len(),
                    inv.len() == n,
                    out_idx.len() == n,
                    is_permutation(perm@, n as nat),
                    shape@ == permuted(self.shape@, perm@),
                    ov == out_idx@.map_values(|x: usize| x as int),
                    in_bounds(shape@, ov),
                    forall|j: int| 0 <= j < n ==> #[trigger] inv@[perm@[j] as int] == j,
                    in_idx.len() == a,
                    forall|b: int|
                        0 <= b < a ==> #[trigger] in_idx@[b] == out_idx@[inv@[b] as int]
                            && in_idx@[b] < self.shape@[b] && inv@[b] < n,
                decreases n - a,
            {
                proof {
                    lemma_permutation_hits(perm@, n as nat, a);
                    let j = choose|j: int| 0 <= j < n && #[trigger] perm@[j] == a;
                    assert(inv@[perm@[j] as int] == j);
                    assert(0 <= ov[j] < shape@[j]);
                    assert(shape@[j] == self.shape@[a as int]);
                }
                in_idx.push(out_idx[inv[a]]);
                a += 1;
            }
            let ghost iv = in_idx@.map_values(|x: usize| x as int);
            proof {
                assert forall|b: int| 0 <= b < n implies 0 <= #[trigger] iv[b] < self.shape@[b] by {
                    assert(in_idx@[b] < self.shape@[b]);
                }
                assert(in_bounds(self.shape@, iv));
                assert(permuted_index(iv, perm@) =~= ov) by {
                    assert forall|j: int| 0 <= j < n implies permuted_index(iv, perm@)[j] == ov[j] by {
                        let b = perm@[j] as int;
                        assert(perm@[j] < n);
                        assert(inv@[perm@[j] as int] == j);
                        assert(in_idx@[b] == out_idx@[inv@[b] as int]);
                    }
                }
            }
            let p = place(&self.shape, &in_idx);
            let ghost before = data@;
            data.push(self.data[p]);
            proof {
                assert forall|idx: Seq<int>| #[trigger]
                    in_bounds(self.shape@, idx) && 0 <= ravel(
                        shape@,
                        permuted_index(idx, perm@),
                    ) < i + 1 implies data@[ravel(shape@, permuted_index(idx, perm@))] == self.at(
                    idx,
                ) by {
                    let pi = permuted_index(idx, perm@);
                    let q = ravel(shape@, pi);
                    lemma_permuted_bounds(self.shape@, perm@, idx);
                    lemma_ravel_bounds(shape@, pi);
                    if q == i {
                        lemma_unravel_ravel(shape@, pi);
                        assert(pi == ov);
                        assert(idx =~= iv) by {
                            assert forall|b: int| 0 <= b < n implies idx[b] == iv[b] by {
                                lemma_permutation_hits(perm@, n as nat, b as usize);
                                let j = choose|j: int| 0 <= j < n && #[trigger] perm@[j] == b as usize;
                                assert(pi[j] == idx[b]);
                                assert(permuted_index(iv, perm@)[j] == iv[b]);
                            }
                        }
                    } else {
                        assert(data@[q] == before[q]);
                    }
                }
            }
            i += 1;
        }
        proof {
            assert forall|idx: Seq<int>| #[trigger] in_bounds(self.shape@, idx) implies data@[ravel(
                shape@,
                permuted_index(idx, perm@),
            )] == self.at(idx) by {
                lemma_permuted_bounds(self.shape@, perm@, idx);
                lemma_ravel_bounds(shape@, permuted_index(idx, perm@));
            }
        }
        Tensor { shape, data }
    }
}

/// A position with reordered axes is one of the tensor with reordered axes.
pub proof fn lemma_permuted_bounds(shape: Seq<usize>, perm: Seq<usize>, idx: Seq<int>)
    requires
        is_permutation(perm, shape.len()),
        in_bounds(shape, idx),
    ensures
        in_bounds(permuted(shape, perm), permuted_index(idx, perm)),
{
    let p = permuted(shape, perm);
    let i = permuted_index(idx, perm);
    assert forall|k: int| 0 <= k < p.len() implies 0 <= #[trigger] i[k] < p[k] by {
        assert(perm[k] < shape.len());
        assert(0 <= idx[perm[k] as int] < shape[perm[k] as int]);
    }
}

/// A position as machine words, as a position.
pub open spec fn index_view(idx: Seq<usize>) -> Seq<int> {
    idx.map_values(|x: usize| x as int)
}

/// Whether `out` holds what `t` holds from `start` up to `end` along `axis`.
pub open spec fn is_slice<T>(out: Tensor<T>, t: Tensor<T>, axis: int, start: int, end: int) -> bool {
    &&& out.wf()
    &&& out.shape@ == t.shape@.update(axis, (end - start) as usize)
    &&& forall|idx: Seq<int>| #[trigger]
        in_bounds(out.shape@, idx) ==> out.at(idx) == t.at(idx.update(axis, idx[axis] + start))
}

/// Making one extent smaller makes the volume no larger.
proof fn lemma_volume_update(shape: Seq<usize>, axis: int, m: usize)
    requires
        0 <= axis < shape.len(),
    ensures
        volume(shape.update(axis, m)) * shape[axis] == volume(shape) * m,
        m <= shape[axis] ==> volume(shape.update(axis, m)) <= volume(shape),
{
    let u = shape.update(axis, m);
    lemma_volume_remove(shape, axis);
    lemma_volume_remove(u, axis);
    assert(u.remove(axis) =~= shape.remove(axis));
    let v = volume(shape.remove(axis)) as int;
    let n = shape[axis] as int;
    let k = m as int;
    assert((v * k) * n == (v * n) * k) by (nonlinear_arith);
    if m <= shape[axis] {
        assert(v * k <= v * n) by (nonlinear_arith)
            requires
                v >= 0,
                0 <= k <= n,
        ;
    }
}

/// The volume of two tensors put together along an axis is the sum of theirs.
pub proof fn lemma_volume_sum(shape: Seq<usize>, axis: int, a: usize, b: usize, c: usize)
    requires
        0 <= axis < shape.len(),
        a + b == c,
    ensures
        volume(shape.update(axis, c)) == volume(shape.update(axis, a)) + volume(
            shape.update(axis, b),
        ),
{
    let sa = shape.update(axis, a);
    let sb = shape.update(axis, b);
    let sc = shape.update(axis, c);
    lemma_volume_remove(sa, axis);
    lemma_volume_remove(sb, axis);
    lemma_volume_remove(sc, axis);
    assert(sa.remove(axis) =~= sc.remove(axis));
    assert(sb.remove(axis) =~= sc.remove(axis));
    let v = volume(sc.remove(axis)) as int;
    assert(v * (a + b) == v * a + v * b) by (nonlinear_arith);
}

/// The same list of machine words.
fn copy_shape(v: &Vec<usize>) -> (r: Vec<usize>)
    ensures
        r@ == v@,
{
    let mut out: Vec<usize> = Vec::new();
    let mut i: usize = 0;
    while i < v.len()
        invariant
            i <= v.len(),
            out@ == v@.take(i as int),
        decreases v.len() - i,
    {
        out.push(v[i]);
        assert(v@.take(i + 1) =~= v@.take(i as int).push(v@[i as int]));
        i += 1;
    }
    assert(v@.take(i as int) =~= v@);
    out
}

impl<T: Copy> Tensor<T> {
    /// What the tensor holds from `start` up to `end` along `axis`.
    pub fn slice_axis(&self, axis: usize, start: usize, end: usize) -> (r: Tensor<T>)
        requires
            self.wf(),
            axis < self.shape@.len(),
            start <= end <= self.shape@[axis as int],
        ensures
            is_slice(r, *self, axis as int, start as int, end as int),
    {
        let mut shape = copy_shape(&self.shape);
        shape[axis] = end - start;
        let all: usize = self.data.len();
        proof {
            lemma_volume_update(self.shape@, axis as int, (end - start) as usize);
        }
        let mut data: Vec<T> = Vec::new();
        let total: usize = match checked_volume(&shape) {
            Some(v) => v,
            None => 0,
        };
        let mut i: usize = 0;
        while i < total
            invariant
                i <= total,
                self.wf(),
                volume(self.shape@) <= usize::MAX,
                axis < self.shape@.len(),
                start <= end <= self.shape@[axis as int],
                shape@ == self.shape@.update(axis as int, (end - start) as usize),
                total == volume(shape@),
                data.len() == i,
                forall|k: int|
                    0 <= k < i ==> #[trigger] data@[k] == self.at(
                        unravel(shape@, k).update(
                            axis as int,
                            unravel(shape@, k)[axis as int] + start,
                        ),
                    ),
            decreases total - i,
        {
            let mut idx = position(&shape, i);
            let ghost ov = unravel(shape@, i as int);
            proof {
                lemma_ravel_unravel(shape@, i as int);
                assert(0 <= ov[axis as int] < shape@[axis as int]);
                assert(ov[axis as int] == index_view(idx@)[axis as int]);
            }
            let moved: usize = idx[axis] + start;
            idx[axis] = moved;
            proof {
                let iv = index_view(idx@);
                assert(iv =~= ov.update(axis as int, ov[axis as int] + start));
                assert forall|a: int| 0 <= a < self.shape@.len() implies 0 <= #[trigger] iv[a]
                    < self.shape@[a] by {
                    assert(0 <= ov[a] < shape@[a]);
                }
            }
            let p = place(&self.shape, &idx);
            data.push(self.data[p]);
            i += 1;
        }
        let r = Tensor { shape, data };
        proof {
            assert forall|idx: Seq<int>| #[trigger] in_bounds(r.shape@, idx) implies r.at(idx)
                == self.at(idx.update(axis as int, idx[axis as int] + start)) by {
                lemma_ravel_bounds(r.shape@, idx);
                lemma_unravel_ravel(r.shape@, idx);
            }
        }
        r
    }
}

/// Whether two shapes agree on all axes but one.
pub open spec fn same_but(a: Seq<usize>, b: Seq<usize>, axis: int) -> bool {
    a.len() == b.len() && forall|k: int| 0 <= k < a.len() && k != axis ==> #[trigger] a[k] == b[k]
}

/// Whether `out` is `a` followed by `b` along `axis`.
pub open spec fn is_pair<T>(out: Tensor<T>, a: Tensor<T>, b: Tensor<T>, axis: int) -> bool {
    &&& out.wf()
    &&& out.shape@ == a.shape@.update(axis, (a.shape@[axis] + b.shape@[axis]) as usize)
    &&& forall|idx: Seq<int>| #[trigger] in_bounds(a.shape@, idx) ==> out.at(idx) == a.at(idx)
    &&& forall|idx: Seq<int>| #[trigger]
        in_bounds(b.shape@, idx) ==> out.at(idx.update(axis, idx[axis] + a.shape@[axis])) == b.at(
            idx,
        )
}

impl<T: Copy> Tensor<T> {
    /// The tensor followed by another along `axis`. `None` where they differ on another axis, or
    /// where the result would not fit.
    pub fn concat_axis(&self, other: &Tensor<T>, axis: usize) -> (r: Option<Tensor<T>>)
        requires
            self.wf(),
            other.wf(),
            axis < self.shape@.len(),
        ensures
            r is Some <==> same_but(self.shape@, other.shape@, axis as int)
                && self.shape@[axis as int] + other.shape@[axis as int] <= usize::MAX
                && self.data@.len() + other.data@.len() <= usize::MAX,
            r matches Some(t) ==> is_pair(t, *self, *other, axis as int),
    {
        if self.shape.len() != other.shape.len() {
            return None;
        }
        let mut k: usize = 0;
        while k < self.shape.len()
            invariant
                k <= self.shape.len(),
                self.shape.len() == other.shape.len(),
                forall|j: int|
                    0 <= j < k && j != axis ==> #[trigger] self.shape@[j] == other.shape@[j],
            decreases self.shape.len() - k,
        {
            if k != axis && self.shape[k] != other.shape[k] {
                return None;
            }
            k += 1;
        }
        let first: usize = self.shape[axis];
        let extent: usize = match first.checked_add(other.shape[axis]) {
            Some(n) => n,
            None => {
                return None;
            },
        };
        let total: usize = match self.data.len().checked_add(other.data.len()) {
            Some(n) => n,
            None => {
                return None;
            },
        };
        let mut shape = copy_shape(&self.shape);
        shape[axis] = extent;
        proof {
            lemma_volume_sum(
                self.shape@,
                axis as int,
                first,
                other.shape@[axis as int],
                extent,
            );
            assert(self.shape@.update(axis as int, first) =~= self.shape@);
            assert(self.shape@.update(axis as int, other.shape@[axis as int]) =~= other.shape@);
        }
        let mut data: Vec<T> = Vec::new();
        let mut i: usize = 0;
        while i < total
            invariant
                i <= total,
                self.wf(),
                other.wf(),
                axis < self.shape@.len(),
                same_but(self.shape@, other.shape@, axis as int),
                first == self.shape@[axis as int],
                extent == first + other.shape@[axis as int],
                shape@ == self.shape@.update(axis as int, extent),
                total == volume(shape@),
                total == self.data@.len() + other.data@.len(),
                data.len() == i,
                forall|k: int|
                    0 <= k < i ==> #[trigger] data@[k] == {
                        let o = unravel(shape@, k);
                        if o[axis as int] < first {
                            self.at(o)
                        } else {
                            other.at(o.update(axis as int, o[axis as int] - first))
                        }
                    },
            decreases total - i,
        {
            let mut idx = position(&shape, i);
            let ghost ov = unravel(shape@, i as int);
            proof {
                lemma_ravel_unravel(shape@, i as int);
                assert(0 <= ov[axis as int] < shape@[axis as int]);
                assert(ov[axis as int] == index_view(idx@)[axis as int]);
                assert(index_view(idx@) =~= ov);
            }
            if idx[axis] < first {
                proof {
                    assert forall|a: int| 0 <= a < self.shape@.len() implies 0 <= #[trigger] ov[a]
                        < self.shape@[a] by {
                        assert(0 <= ov[a] < shape@[a]);
                    }
                }
                let p = place(&self.shape, &idx);
                data.push(self.data[p]);
            } else {
                let moved: usize = idx[axis] - first;
                idx[axis] = moved;
                proof {
                    let iv = index_view(idx@);
                    assert(iv =~= ov.update(axis as int, ov[axis as int] - first));
                    assert forall|a: int| 0 <= a < other.shape@.len() implies 0 <= #[trigger] iv[a]
                        < other.shape@[a] by {
                        assert(0 <= ov[a] < shape@[a]);
                        if a != axis {
                            assert(self.shape@[a] == other.shape@[a]);
                        }
                    }
                }
                let p = place(&other.shape, &idx);
                data.push(other.data[p]);
            }
            i += 1;
        }
        let r = Tensor { shape, data };
        proof {
            assert forall|idx: Seq<int>| #[trigger] in_bounds(self.shape@, idx) implies r.at(idx)
                == self.at(idx) by {
                assert forall|a: int| 0 <= a < r.shape@.len() implies 0 <= #[trigger] idx[a]
                    < r.shape@[a] by {
                    assert(0 <= idx[a] < self.shape@[a]);
                }
                lemma_ravel_bounds(r.shape@, idx);
                lemma_unravel_ravel(r.shape@, idx);
                assert(0 <= idx[axis as int] < self.shape@[axis as int]);
            }
            assert forall|idx: Seq<int>| #[trigger] in_bounds(other.shape@, idx) implies r.at(
                idx.update(axis as int, idx[axis as int] + first),
            ) == other.at(idx) by {
                let o = idx.update(axis as int, idx[axis as int] + first);
                assert(0 <= idx[axis as int] < other.shape@[axis as int]);
                assert forall|a: int| 0 <= a < r.shape@.len() implies 0 <= #[trigger] o[a]
                    < r.shape@[a] by {
                    assert(0 <= idx[a] < other.shape@[a]);
                    if a != axis {
                        assert(self.shape@[a] == other.shape@[a]);
                    }
                }
                lemma_ravel_bounds(r.shape@, o);
                lemma_unravel_ravel(r.shape@, o);
                assert(o.update(axis as int, o[axis as int] - first) =~= idx);
            }
        }
        Some(r)
    }
}

/// Two tensors of one shape that agree at every position hold the same elements.
pub proof fn lemma_tensor_ext<T>(a: Tensor<T>, b: Tensor<T>)
    requires
        a.wf(),
        b.wf(),
        a.shape@ == b.shape@,
        forall|idx: Seq<int>| #[trigger] in_bounds(a.shape@, idx) ==> a.at(idx) == b.at(idx),
    ensures
        a.data@ == b.data@,
{
    assert forall|k: int| 0 <= k < a.data@.len() implies a.data@[k] == b.data@[k] by {
        lemma_ravel_unravel(a.shape@, k);
        let idx = unravel(a.shape@, k);
        assert(a.at(idx) == b.at(idx));
    }
    assert(a.data@ =~= b.data@);
}

/// The volume of a matrix.
pub proof fn lemma_volume2(a: usize, b: usize)
    ensures
        volume(seq![a, b]) == a * b,
{
    let s2 = seq![a, b];
    let s1 = s2.drop_last();
    let s0 = s1.drop_last();
    assert(s1 =~= seq![a]);
    assert(s0 =~= Seq::<usize>::empty());
    let v0 = volume(s0);
    assert(volume(s1) == v0 * (a as nat));
    assert(v0 * (a as nat) == a as nat) by (nonlinear_arith)
        requires
            v0 == 1,
    ;
    assert(volume(s2) == volume(s1) * (b as nat));
}

/// The volume of a tensor with three axes.
pub proof fn lemma_volume3(a: usize, b: usize, c: usize)
    ensures
        volume(seq![a, b, c]) == a * b * c,
{
    let s3 = seq![a, b, c];
    let s2 = s3.drop_last();
    assert(s2 =~= seq![a, b]);
    lemma_volume2(a, b);
    assert(volume(s3) == volume(s2) * (c as nat));
}

/// The volume of a tensor with four axes.
pub proof fn lemma_volume4(a: usize, b: usize, c: usize, d: usize)
    ensures
        volume(seq![a, b, c, d]) == a * b * c * d,
{
    let s4 = seq![a, b, c, d];
    let s3 = s4.drop_last();
    let s2 = s3.drop_last();
    assert(s3 =~= seq![a, b, c]);
    assert(s2 =~= seq![a, b]);
    lemma_volume2(a, b);
    assert(volume(s3) == volume(s2) * (c as nat));
    assert(volume(s4) == volume(s3) * (d as nat));
}

/// The volume of a tensor with five axes.
pub proof fn lemma_volume5(a: usize, b: usize, c: usize, d: usize, e: usize)
    ensures
        volume(seq![a, b, c, d, e]) == a * b * c * d * e,
{
    let s5 = seq![a, b, c, d, e];
    let s4 = s5.drop_last();
    assert(s4 =~= seq![a, b, c, d]);
    lemma_volume4(a, b, c, d);
    assert(volume(s5) == volume(s4) * (e as nat));
}

/// The tensor of a shape whose element at each position is what `f` gives there. `g` says what that
/// is.
pub(crate) fn tabulate<T, F: Fn(&Vec<usize>) -> T>(
    shape: Vec<usize>,
    f: F,
    Ghost(g): Ghost<spec_fn(Seq<int>) -> T>,
) -> (r: Tensor<T>)
    requires
        volume(shape@) <= usize::MAX,
        forall|v: &Vec<usize>|
            in_bounds(shape@, index_view(v@)) ==> #[trigger] f.requires((v,)),
        forall|v: &Vec<usize>, out: T|
            in_bounds(shape@, index_view(v@)) && #[trigger] f.ensures((v,), out) ==> out == g(
                index_view(v@),
            ),
    ensures
        r.wf(),
        r.shape@ == shape@,
        forall|idx: Seq<int>| #[trigger] in_bounds(shape@, idx) ==> r.at(idx) == g(idx),
{
    let n: usize = match checked_volume(&shape) {
        Some(n) => n,
        None => 0,
    };
    let mut data: Vec<T> = Vec::new();
    let mut k: usize = 0;
    while k < n
        invariant
            k <= n,
            n == volume(shape@),
            data.len() == k,
            forall|j: int| 0 <= j < k ==> #[trigger] data@[j] == g(unravel(shape@, j)),
            forall|v: &Vec<usize>|
                in_bounds(shape@, index_view(v@)) ==> #[trigger] f.requires((v,)),
            forall|v: &Vec<usize>, out: T|
                in_bounds(shape@, index_view(v@)) && #[trigger] f.ensures((v,), out) ==> out == g(
                    index_view(v@),
                ),
        decreases n - k,
    {
        let v = position(&shape, k);
        proof {
            lemma_ravel_unravel(shape@, k as int);
            assert(index_view(v@) == unravel(shape@, k as int));
        }
        let x = f(&v);
        data.push(x);
        k += 1;
    }
    let r = Tensor { shape, data };
    proof {
        assert forall|idx: Seq<int>| #[trigger] in_bounds(r.shape@, idx) implies r.at(idx) == g(
            idx,
        ) by {
            lemma_ravel_bounds(r.shape@, idx);
            lemma_unravel_ravel(r.shape@, idx);
        }
    }
    r
}

/// A shape with so much in front of and behind each axis.
pub open spec fn padded_shape(shape: Seq<usize>, pads: Seq<(usize, usize)>) -> Seq<usize> {
    Seq::new(shape.len(), |a: int| (pads[a].0 + shape[a] + pads[a].1) as usize)
}

/// Whether a position of the padded tensor lies in the tensor.
pub open spec fn in_window(shape: Seq<usize>, pads: Seq<(usize, usize)>, idx: Seq<int>) -> bool {
    forall|a: int| 0 <= a < shape.len() ==> pads[a].0 <= #[trigger] idx[a] < pads[a].0 + shape[a]
}

/// The position in the tensor of a position of the padded tensor.
pub open spec fn window_index(pads: Seq<(usize, usize)>, idx: Seq<int>) -> Seq<int> {
    Seq::new(idx.len(), |a: int| idx[a] - pads[a].0)
}

/// Whether `out` is `t` with `fill` around it.
pub open spec fn is_padded<T>(
    out: Tensor<T>,
    t: Tensor<T>,
    pads: Seq<(usize, usize)>,
    fill: T,
) -> bool {
    &&& out.wf()
    &&& out.shape@ == padded_shape(t.shape@, pads)
    &&& forall|idx: Seq<int>| #[trigger]
        in_bounds(out.shape@, idx) ==> out.at(idx) == if in_window(t.shape@, pads, idx) {
            t.at(window_index(pads, idx))
        } else {
            fill
        }
}

impl<T: Copy> Tensor<T> {
    /// The element at a position of the padded tensor.
    fn get_padded(&self, pads: &Vec<(usize, usize)>, idx: &Vec<usize>, fill: T) -> (r: T)
        requires
            self.wf(),
            pads.len() == self.shape.len(),
            idx.len() == self.shape.len(),
            forall|a: int|
                0 <= a < pads@.len() ==> (#[trigger] pads@[a]).0 + self.shape@[a] <= usize::MAX,
        ensures
            r == if in_window(self.shape@, pads@, index_view(idx@)) {
                self.at(window_index(pads@, index_view(idx@)))
            } else {
                fill
            },
    {
        let mut inner: Vec<usize> = Vec::new();
        let mut a: usize = 0;
        while a < idx.len()
            invariant
                a <= idx.len(),
                pads.len() == self.shape.len(),
                idx.len() == self.shape.len(),
                inner.len() == a,
                forall|b: int|
                    0 <= b < pads@.len() ==> (#[trigger] pads@[b]).0 + self.shape@[b] <= usize::MAX,
                forall|b: int|
                    0 <= b < a ==> pads@[b].0 <= #[trigger] idx@[b] < pads@[b].0 + self.shape@[b],
                forall|b: int| 0 <= b < a ==> #[trigger] inner@[b] == idx@[b] - pads@[b].0,
            decreases idx.len() - a,
        {
            let front: usize = pads[a].0;
            assert(pads@[a as int].0 + self.shape@[a as int] <= usize::MAX);
            if idx[a] < front || idx[a] >= front + self.shape[a] {
                assert(!in_window(self.shape@, pads@, index_view(idx@))) by {
                    assert(index_view(idx@)[a as int] == idx@[a as int]);
                }
                return fill;
            }
            inner.push(idx[a] - front);
            a += 1;
        }
        proof {
            let iv = index_view(idx@);
            assert(in_window(self.shape@, pads@, iv)) by {
                assert forall|b: int| 0 <= b < self.shape@.len() implies pads@[b].0 <= #[trigger] iv[b]
                    < pads@[b].0 + self.shape@[b] by {
                    assert(iv[b] == idx@[b]);
                }
            }
            let w = window_index(pads@, iv);
            assert(index_view(inner@) =~= w);
            assert(in_bounds(self.shape@, w)) by {
                assert forall|b: int| 0 <= b < self.shape@.len() implies 0 <= #[trigger] w[b]
                    < self.shape@[b] by {
                    assert(inner@[b] == idx@[b] - pads@[b].0);
                }
            }
        }
        self.get(&inner)
    }

    /// The tensor with `fill` in front of and behind each axis.
    pub fn pad(&self, pads: &Vec<(usize, usize)>, fill: T) -> (r: Tensor<T>)
        requires
            self.wf(),
            pads.len() == self.shape.len(),
            forall|a: int|
                0 <= a < pads@.len() ==> (#[trigger] pads@[a]).0 + self.shape@[a] + pads@[a].1
                    <= usize::MAX,
            volume(padded_shape(self.shape@, pads@)) <= usize::MAX,
        ensures
            is_padded(r, *self, pads@, fill),
    {
        let mut shape: Vec<usize> = Vec::new();
        let mut a: usize = 0;
        while a < pads.len()
            invariant
                a <= pads.len(),
                pads.len() == self.shape.len(),
                shape.len() == a,
                forall|b: int|
                    0 <= b < pads@.len() ==> (#[trigger] pads@[b]).0 + self.shape@[b] + pads@[b].1
                        <= usize::MAX,
                forall|b: int|
                    0 <= b < a ==> #[trigger] shape@[b] == pads@[b].0 + self.shape@[b] + pads@[b].1,
            decreases pads.len() - a,
        {
            assert(pads@[a as int].0 + self.shape@[a as int] + pads@[a as int].1 <= usize::MAX);
            let pair = pads[a];
            shape.push(pair.0 + self.shape[a] + pair.1);
            a += 1;
        }
        assert(shape@ =~= padded_shape(self.shape@, pads@));
        let t: &Tensor<T> = self;
        let ghost g = |idx: Seq<int>|
            if in_window(t.shape@, pads@, idx) {
                t.at(window_index(pads@, idx))
            } else {
                fill
            };
        let f = |v: &Vec<usize>| -> (out: T)
            requires
                in_bounds(padded_shape(t.shape@, pads@), index_view(v@)),
                t.wf(),
                pads.len() == t.shape.len(),
                forall|a: int|
                    0 <= a < pads@.len() ==> (#[trigger] pads@[a]).0 + t.shape@[a] + pads@[a].1
                        <= usize::MAX,
            ensures
                out == g(index_view(v@)),
            { t.get_padded(pads, v, fill) };
        tabulate(shape, f, Ghost(g))
    }
}

} // verus!

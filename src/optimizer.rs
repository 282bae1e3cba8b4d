//! The peephole optimizer: folds `PushNumber(a) PushNumber(b) Add` into one
//! push and renumbers every branch target to match.
//!
//! The pass reads the stream once, appending each instruction to the output;
//! whenever the output then ends with a foldable triple, the triple is
//! replaced at once by the push of its sum. A fold can complete a new triple
//! only at the end of the output, so the result holds no foldable triple and
//! a second pass leaves it unchanged.
//!
//! Numbers are bit patterns of 32-bit floats; the sum of two of them is
//! computed by the `sum` function that the caller hands in.
use vstd::prelude::*;
use crate::instructions::{code_view, target_within, targets_in_range, Instr, Instructions};

verus! {

/// A foldable triple starts at `i`: two number pushes followed by `Add`.
pub open spec fn foldable_at(code: Seq<Instr>, i: int) -> bool {
    &&& 0 <= i
    &&& i + 2 < code.len()
    &&& code[i] is PushNumber
    &&& code[i + 1] is PushNumber
    &&& code[i + 2] is Add
}

/// The stream ends with a foldable triple.
pub open spec fn tail_foldable(out: Seq<Instr>) -> bool {
    out.len() >= 3 && foldable_at(out, out.len() - 3)
}

/// Every entry of the map above `t` lowered to `t`.
pub open spec fn clamp(map: Seq<int>, t: int) -> Seq<int> {
    map.map_values(|v: int| if v < t { v } else { t })
}

/// The state of the folding pass: the output so far, the new index of each
/// old position read so far, and the operands of each fold so far.
pub struct FoldState {
    pub out: Seq<Instr>,
    pub map: Seq<int>,
    pub pairs: Seq<(u32, u32)>,
}

/// Reads one instruction: appends it, then folds the triple that ends the
/// output, if there is one. The `k`-th fold pushes `sums[k]`.
pub open spec fn fold_step(st: FoldState, ins: Instr, sums: Seq<u32>) -> FoldState {
    let out1 = st.out.push(ins);
    let map1 = st.map.push(st.out.len() as int);
    let n = out1.len() as int;
    if tail_foldable(out1) {
        FoldState {
            out: out1.subrange(0, n - 3).push(Instr::PushNumber(sums[st.pairs.len() as int])),
            map: clamp(map1, n - 3),
            pairs: st.pairs.push((out1[n - 3]->PushNumber_0, out1[n - 2]->PushNumber_0)),
        }
    } else {
        FoldState { out: out1, map: map1, pairs: st.pairs }
    }
}

/// The state after reading the first `i` instructions.
pub open spec fn fold_prefix(code: Seq<Instr>, i: int, sums: Seq<u32>) -> FoldState
    decreases i,
{
    if i <= 0 {
        FoldState { out: Seq::empty(), map: Seq::empty(), pairs: Seq::empty() }
    } else {
        fold_step(fold_prefix(code, i - 1, sums), code[i - 1], sums)
    }
}

/// `sums` are the fold results of the pass over `code`, one per fold, each
/// a sum that `sum` gives for the fold's two operands.
pub open spec fn folds_by<F: Fn(u32, u32) -> u32>(code: Seq<Instr>, sums: Seq<u32>, sum: F) -> bool {
    let st = fold_prefix(code, code.len() as int, sums);
    &&& st.pairs.len() == sums.len()
    &&& forall|k: int|
        0 <= k < sums.len() ==> call_ensures(sum, (#[trigger] st.pairs[k].0, st.pairs[k].1), sums[k])
}

/// The folded output with every branch target renumbered.
pub open spec fn relocated(code: Seq<Instr>, st: FoldState) -> Seq<Instr> {
    st.out.map_values(|i: Instr| retarget(i, code.len(), st.out.len(), st.map))
}

/// `result` is what the optimizer makes of `code`, for fold results that `sum` gives.
pub open spec fn optimizes_to<F: Fn(u32, u32) -> u32>(
    code: Seq<Instr>,
    result: Seq<Instr>,
    sum: F,
) -> bool {
    exists|sums: Seq<u32>|
        #[trigger] folds_by(code, sums, sum) && result == relocated(
            code,
            fold_prefix(code, code.len() as int, sums),
        )
}

/// The map with every entry above `t` lowered to `t`; the map is nondecreasing.
fn clamp_map(map: &mut Vec<usize>, t: usize)
    requires
        forall|a: int, b: int| 0 <= a < b < old(map)@.len() ==> old(map)@[a] <= old(map)@[b],
    ensures
        final(map)@.map_values(|x: usize| x as int) == clamp(
            old(map)@.map_values(|x: usize| x as int),
            t as int,
        ),
{
    let ghost m0 = map@;
    let mut k = map.len();
    while k > 0 && map[k - 1] > t
        invariant
            k <= m0.len(),
            map@.len() == m0.len(),
            forall|a: int, b: int| 0 <= a < b < m0.len() ==> m0[a] <= m0[b],
            forall|j: int| 0 <= j < k ==> map@[j] == m0[j],
            forall|j: int| k <= j < m0.len() ==> map@[j] == t && m0[j] > t,
        decreases k,
    {
        map.set(k - 1, t);
        k = k - 1;
    }
    assert(map@.map_values(|x: usize| x as int) =~= clamp(m0.map_values(|x: usize| x as int), t as int))
        by {
        assert forall|j: int| 0 <= j < k implies m0[j] <= t by {
            assert(m0[j] <= m0[k - 1]);
        }
    }
}

/// The folding pass: the folded stream, and the new index of every old position.
pub fn constant_folding<F: Fn(u32, u32) -> u32>(code: &Vec<Instructions>, sum: &F) -> (r: (
    Vec<Instructions>,
    Vec<usize>,
))
    requires
        forall|a: u32, b: u32| call_requires(*sum, (a, b)),
    ensures
        exists|sums: Seq<u32>|
            #[trigger] folds_by(code_view(code@), sums, *sum) && code_view(r.0@) == fold_prefix(
                code_view(code@),
                code@.len() as int,
                sums,
            ).out && r.1@.map_values(|x: usize| x as int) == fold_prefix(
                code_view(code@),
                code@.len() as int,
                sums,
            ).map,
{
    let ghost cv = code_view(code@);
    let n = code.len();
    let mut out: Vec<Instructions> = Vec::new();
    let mut map: Vec<usize> = Vec::new();
    let ghost mut sums: Seq<u32> = Seq::empty();
    let mut i: usize = 0;
    assert(code_view(out@) =~= Seq::<Instr>::empty());
    assert(map@.map_values(|x: usize| x as int) =~= Seq::<int>::empty());
    while i < n
        invariant
            n == code@.len(),
            cv == code_view(code@),
            cv.len() == n,
            forall|a: u32, b: u32| call_requires(*sum, (a, b)),
            i <= n,
            fold_prefix(cv, i as int, sums).out == code_view(out@),
            fold_prefix(cv, i as int, sums).map == map@.map_values(|x: usize| x as int),
            fold_prefix(cv, i as int, sums).pairs.len() == sums.len(),
            forall|k: int|
                0 <= k < sums.len() ==> call_ensures(
                    *sum,
                    (
                        #[trigger] fold_prefix(cv, i as int, sums).pairs[k].0,
                        fold_prefix(cv, i as int, sums).pairs[k].1,
                    ),
                    sums[k],
                ),
        decreases n - i,
    {
        let ghost prev = fold_prefix(cv, i as int, sums);
        proof {
            lemma_fold_props(cv, i as int, sums);
        }
        let j = out.len();
        out.push(code[i].copy());
        map.push(j);
        let ghost out1 = code_view(out@);
        let ghost map1 = map@.map_values(|x: usize| x as int);
        assert(out1 =~= prev.out.push(cv[i as int]));
        assert(map1 =~= prev.map.push(j as int));
        let m = out.len();
        let mut operands: Option<(u32, u32)> = None;
        if m >= 3 {
            if let (Instructions::PushNumber(a), Instructions::PushNumber(b), Instructions::Add) = (
                &out[m - 3],
                &out[m - 2],
                &out[m - 1],
            ) {
                operands = Some((*a, *b));
            }
        }
        assert(operands is Some <==> tail_foldable(out1)) by {
            if m >= 3 {
                assert(out1[m - 3] == out@[m - 3]@);
                assert(out1[m - 2] == out@[m - 2]@);
                assert(out1[m - 1] == out@[m - 1]@);
            }
        }
        match operands {
            Some((a, b)) => {
                let s = sum(a, b);
                out.pop();
                out.pop();
                out.pop();
                out.push(Instructions::PushNumber(s));
                proof {
                    assert forall|x: int, y: int| 0 <= x < y < map@.len() implies map@[x]
                        <= map@[y] by {
                        assert(map1[x] == map@[x] as int);
                        assert(map1[y] == map@[y] as int);
                        if y < i {
                            assert(prev.map[x] <= prev.map[y]);
                        } else {
                            assert(prev.map[x] < prev.out.len());
                        }
                    }
                }
                clamp_map(&mut map, m - 3);
                proof {
                    lemma_fold_sums_extend(cv, i as int, sums, s);
                    sums = sums.push(s);
                    assert(code_view(out@) =~= out1.subrange(0, m - 3).push(Instr::PushNumber(s)));
                    assert(fold_prefix(cv, i + 1, sums) == fold_step(prev, cv[i as int], sums));
                    let next = fold_prefix(cv, i + 1, sums);
                    assert forall|k: int| 0 <= k < sums.len() implies call_ensures(
                        *sum,
                        (#[trigger] next.pairs[k].0, next.pairs[k].1),
                        sums[k],
                    ) by {
                        if k < sums.len() - 1 {
                            assert(next.pairs[k] == prev.pairs[k]);
                        }
                    }
                }
            },
            None => {
                assert(fold_prefix(cv, i + 1, sums) == fold_step(prev, cv[i as int], sums));
            },
        }
        i = i + 1;
    }
    assert(folds_by(cv, sums, *sum));
    (out, map)
}

/// An instruction with its branch target renumbered through `map`; the old
/// length becomes the new length.
pub open spec fn retarget(ins: Instr, old_len: nat, new_len: nat, map: Seq<int>) -> Instr {
    let t = |k: nat|
        if k == old_len {
            new_len
        } else {
            map[k as int] as nat
        };
    match ins {
        Instr::Jump(k) => Instr::Jump(t(k)),
        Instr::JumpIfFalse(k) => Instr::JumpIfFalse(t(k)),
        Instr::JumpIfTrue(k) => Instr::JumpIfTrue(t(k)),
        _ => ins,
    }
}

/// The renumbering pass.
fn fix_jump_addresses(code: Vec<Instructions>, old_len: usize, old_to_new: &Vec<usize>) -> (r: Vec<
    Instructions,
>)
    requires
        old_to_new@.len() == old_len,
        forall|j: int|
            0 <= j < code@.len() ==> #[trigger] target_within(code@[j]@, old_len as nat),
    ensures
        r@.len() == code@.len(),
        forall|j: int|
            0 <= j < code@.len() ==> (#[trigger] r@[j])@ == retarget(
                code@[j]@,
                old_len as nat,
                code@.len(),
                old_to_new@.map_values(|x: usize| x as int),
            ),
{
    let ghost map = old_to_new@.map_values(|x: usize| x as int);
    let new_len = code.len();
    let mut r: Vec<Instructions> = Vec::new();
    let mut j: usize = 0;
    while j < new_len
        invariant
            new_len == code@.len(),
            old_to_new@.len() == old_len,
            map == old_to_new@.map_values(|x: usize| x as int),
            forall|i: int|
                0 <= i < code@.len() ==> #[trigger] target_within(code@[i]@, old_len as nat),
            j <= new_len,
            r@.len() == j,
            forall|i: int|
                0 <= i < j ==> (#[trigger] r@[i])@ == retarget(
                    code@[i]@,
                    old_len as nat,
                    new_len as nat,
                    map,
                ),
        decreases new_len - j,
    {
        assert(target_within(code@[j as int]@, old_len as nat));
        let ins = match &code[j] {
            Instructions::Jump(k) => Instructions::Jump(
                if *k == old_len {
                    new_len
                } else {
                    old_to_new[*k]
                },
            ),
            Instructions::JumpIfFalse(k) => Instructions::JumpIfFalse(
                if *k == old_len {
                    new_len
                } else {
                    old_to_new[*k]
                },
            ),
            Instructions::JumpIfTrue(k) => Instructions::JumpIfTrue(
                if *k == old_len {
                    new_len
                } else {
                    old_to_new[*k]
                },
            ),
            other => other.copy(),
        };
        r.push(ins);
        j = j + 1;
    }
    r
}

/// Optimizes an instruction stream whose branch targets are in range: folds
/// constant additions, `sum` giving the sum of two numbers, and renumbers
/// every branch target. The result holds no foldable triple.
pub fn optimize<F: Fn(u32, u32) -> u32>(code: Vec<Instructions>, sum: F) -> (r: Vec<Instructions>)
    requires
        targets_in_range(code_view(code@)),
        forall|a: u32, b: u32| call_requires(sum, (a, b)),
    ensures
        optimizes_to(code_view(code@), code_view(r@), sum),
        forall|p: int| !#[trigger] foldable_at(code_view(r@), p),
        targets_in_range(code_view(r@)),
{
    let ghost cv = code_view(code@);
    let (folded, map) = constant_folding(&code, &sum);
    let ghost sums = choose|sums: Seq<u32>|
        #[trigger] folds_by(cv, sums, sum) && code_view(folded@) == fold_prefix(
            cv,
            cv.len() as int,
            sums,
        ).out && map@.map_values(|x: usize| x as int) == fold_prefix(cv, cv.len() as int, sums).map;
    let ghost st = fold_prefix(cv, cv.len() as int, sums);
    proof {
        lemma_fold_props(cv, cv.len() as int, sums);
        assert(map@.len() == st.map.len());
        assert forall|j: int| 0 <= j < folded@.len() implies #[trigger] target_within(
            folded@[j]@,
            code@.len(),
        ) by {
            assert(folded@[j]@ == st.out[j]);
        }
    }
    let r = fix_jump_addresses(folded, code.len(), &map);
    proof {
        assert(code_view(r@) =~= relocated(cv, st));
        lemma_relocated_props(cv, sums);
    }
    r
}

/// Facts of the pass after `i` instructions: one map entry per instruction
/// read, nondecreasing and pointing into the output; no foldable triple in the
/// output; and the output's jumps are jumps of the input.
pub proof fn lemma_fold_props(code: Seq<Instr>, i: int, sums: Seq<u32>)
    requires
        0 <= i <= code.len(),
    ensures
        ({
            let st = fold_prefix(code, i, sums);
            &&& st.map.len() == i
            &&& forall|a: int, b: int| 0 <= a < b < i ==> st.map[a] <= st.map[b]
            &&& forall|a: int| 0 <= a < i ==> 0 <= #[trigger] st.map[a] < st.out.len()
            &&& forall|p: int| !#[trigger] foldable_at(st.out, p)
            &&& targets_in_range(code) ==> forall|p: int|
                0 <= p < st.out.len() ==> #[trigger] target_within(st.out[p], code.len())
        }),
    decreases i,
{
    if i > 0 {
        lemma_fold_props(code, i - 1, sums);
        let prev = fold_prefix(code, i - 1, sums);
        let st = fold_prefix(code, i, sums);
        let out1 = prev.out.push(code[i - 1]);
        let map1 = prev.map.push(prev.out.len() as int);
        let n = out1.len() as int;
        assert forall|a: int, b: int| 0 <= a < b < i implies map1[a] <= map1[b] by {}
        if tail_foldable(out1) {
            assert forall|p: int| !#[trigger] foldable_at(st.out, p) by {
                if foldable_at(st.out, p) {
                    assert(st.out[p] == prev.out[p]);
                    assert(st.out[p + 1] == prev.out[p + 1]);
                    assert(foldable_at(prev.out, p));
                }
            }
            if targets_in_range(code) {
                assert(target_within(code[i - 1], code.len()));
                assert forall|p: int| 0 <= p < st.out.len() implies #[trigger] target_within(
                    st.out[p],
                    code.len(),
                ) by {
                    if p < n - 3 {
                        assert(st.out[p] == prev.out[p]);
                    }
                }
            }
        } else {
            assert forall|p: int| !#[trigger] foldable_at(st.out, p) by {
                if foldable_at(st.out, p) && p + 3 < n {
                    assert(st.out[p] == prev.out[p]);
                    assert(st.out[p + 1] == prev.out[p + 1]);
                    assert(st.out[p + 2] == prev.out[p + 2]);
                    assert(foldable_at(prev.out, p));
                }
            }
            if targets_in_range(code) {
                assert(target_within(code[i - 1], code.len()));
                assert forall|p: int| 0 <= p < st.out.len() implies #[trigger] target_within(
                    st.out[p],
                    code.len(),
                ) by {
                    if p < n - 1 {
                        assert(st.out[p] == prev.out[p]);
                    }
                }
            }
        }
    }
}

/// The pass over the first `i` instructions uses only the fold results it
/// has folds for: a further result changes nothing.
pub proof fn lemma_fold_sums_extend(code: Seq<Instr>, i: int, sums: Seq<u32>, x: u32)
    requires
        0 <= i <= code.len(),
        fold_prefix(code, i, sums).pairs.len() <= sums.len(),
    ensures
        fold_prefix(code, i, sums.push(x)) == fold_prefix(code, i, sums),
    decreases i,
{
    if i > 0 {
        let prev = fold_prefix(code, i - 1, sums);
        assert(prev.pairs.len() <= fold_prefix(code, i, sums).pairs.len());
        lemma_fold_sums_extend(code, i - 1, sums, x);
        if tail_foldable(prev.out.push(code[i - 1])) {
            assert(sums.push(x)[prev.pairs.len() as int] == sums[prev.pairs.len() as int]);
        }
    }
}

/// The relocated output holds no foldable triple, and where the input's
/// targets are in range, so are the output's.
pub proof fn lemma_relocated_props(code: Seq<Instr>, sums: Seq<u32>)
    ensures
        ({
            let r = relocated(code, fold_prefix(code, code.len() as int, sums));
            &&& forall|p: int| !#[trigger] foldable_at(r, p)
            &&& targets_in_range(code) ==> targets_in_range(r)
        }),
{
    let st = fold_prefix(code, code.len() as int, sums);
    let r = relocated(code, st);
    lemma_fold_props(code, code.len() as int, sums);
    assert forall|p: int| !#[trigger] foldable_at(r, p) by {
        if foldable_at(r, p) {
            assert(r[p] == retarget(st.out[p], code.len(), st.out.len(), st.map));
            assert(r[p + 1] == retarget(st.out[p + 1], code.len(), st.out.len(), st.map));
            assert(r[p + 2] == retarget(st.out[p + 2], code.len(), st.out.len(), st.map));
            assert(foldable_at(st.out, p));
        }
    }
    if targets_in_range(code) {
        assert forall|p: int| 0 <= p < r.len() implies #[trigger] target_within(r[p], r.len()) by {
            assert(target_within(st.out[p], code.len()));
            assert(r[p] == retarget(st.out[p], code.len(), st.out.len(), st.map));
            match st.out[p] {
                Instr::Jump(k) | Instr::JumpIfFalse(k) | Instr::JumpIfTrue(k) => {
                    if k < code.len() {
                        assert(st.map[k as int] < st.out.len());
                    }
                },
                _ => {},
            }
        }
    }
}

/// The optimizer's result holds no foldable triple.
pub proof fn lemma_optimized_has_no_triple<F: Fn(u32, u32) -> u32>(
    code: Seq<Instr>,
    result: Seq<Instr>,
    sum: F,
)
    requires
        optimizes_to(code, result, sum),
    ensures
        forall|p: int| !#[trigger] foldable_at(result, p),
{
    let sums = choose|sums: Seq<u32>|
        #[trigger] folds_by(code, sums, sum) && result == relocated(
            code,
            fold_prefix(code, code.len() as int, sums),
        );
    lemma_relocated_props(code, sums);
}

/// Jump integrity: optimizing a stream whose branch targets are in range gives
/// a stream whose branch targets are in range.
pub proof fn lemma_jump_integrity<F: Fn(u32, u32) -> u32>(
    code: Seq<Instr>,
    result: Seq<Instr>,
    sum: F,
)
    requires
        targets_in_range(code),
        optimizes_to(code, result, sum),
    ensures
        targets_in_range(result),
{
    let sums = choose|sums: Seq<u32>|
        #[trigger] folds_by(code, sums, sum) && result == relocated(
            code,
            fold_prefix(code, code.len() as int, sums),
        );
    lemma_relocated_props(code, sums);
}

/// Without a foldable triple, the pass copies the stream and maps every
/// position to itself.
pub proof fn lemma_no_fold_identity(code: Seq<Instr>, i: int, sums: Seq<u32>)
    requires
        0 <= i <= code.len(),
        forall|p: int| !#[trigger] foldable_at(code, p),
    ensures
        fold_prefix(code, i, sums) == (FoldState {
            out: code.subrange(0, i),
            map: Seq::new(i as nat, |k: int| k),
            pairs: Seq::empty(),
        }),
    decreases i,
{
    if i > 0 {
        lemma_no_fold_identity(code, i - 1, sums);
        let out1 = code.subrange(0, i - 1).push(code[i - 1]);
        assert(out1 =~= code.subrange(0, i));
        if tail_foldable(out1) {
            assert(foldable_at(code, i - 3));
        }
        assert(Seq::new((i - 1) as nat, |k: int| k).push(i - 1) =~= Seq::new(i as nat, |k: int| k));
    } else {
        assert(code.subrange(0, 0) =~= Seq::<Instr>::empty());
        assert(Seq::new(0, |k: int| k) =~= Seq::<int>::empty());
    }
}

/// A stream with its branch targets in range and no foldable triple is left
/// unchanged by the optimizer.
pub proof fn lemma_optimize_fixed_point<F: Fn(u32, u32) -> u32>(
    code: Seq<Instr>,
    result: Seq<Instr>,
    sum: F,
)
    requires
        targets_in_range(code),
        forall|p: int| !#[trigger] foldable_at(code, p),
        optimizes_to(code, result, sum),
    ensures
        result == code,
{
    let sums = choose|sums: Seq<u32>|
        #[trigger] folds_by(code, sums, sum) && result == relocated(
            code,
            fold_prefix(code, code.len() as int, sums),
        );
    lemma_no_fold_identity(code, code.len() as int, sums);
    let st = fold_prefix(code, code.len() as int, sums);
    assert(st.out =~= code);
    assert forall|j: int| 0 <= j < code.len() implies #[trigger] result[j] == code[j] by {
        assert(target_within(code[j], code.len()));
        assert(result[j] == retarget(st.out[j], code.len(), st.out.len(), st.map));
    }
    assert(result =~= code);
}

/// Idempotence: optimizing an optimized stream gives it back, for any stream
/// whose branch targets are in range.
pub proof fn lemma_optimize_idempotent<F: Fn(u32, u32) -> u32>(
    code: Seq<Instr>,
    once: Seq<Instr>,
    twice: Seq<Instr>,
    sum: F,
)
    requires
        targets_in_range(code),
        optimizes_to(code, once, sum),
        optimizes_to(once, twice, sum),
    ensures
        twice == once,
{
    lemma_jump_integrity(code, once, sum);
    lemma_optimized_has_no_triple(code, once, sum);
    lemma_optimize_fixed_point(once, twice, sum);
}

} // verus!

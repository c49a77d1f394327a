//! The pool of string literals: literals longer than one byte numbered from
//! 256 on in byte order, single bytes standing for themselves.
use vstd::prelude::*;
use vstd::string::StringSliceAdditionalSpecFns;

verus! {

/// The first number given to a pooled literal; numbers below stand for
/// single bytes.
pub const FIRST_POOLED: usize = 256;

/// The check value written at the end of the pool file.
pub const POOL_CHECKSUM: usize = 123456789;

/// Three-way comparison of byte strings in lexicographic order, from index
/// `i` on: -1, 0 or 1.
pub open spec fn lex_cmp_from(a: Seq<u8>, b: Seq<u8>, i: int) -> int
    decreases a.len() - i,
{
    if i >= a.len() {
        if i >= b.len() { 0 } else { -1 }
    } else if i >= b.len() {
        1
    } else if a[i] < b[i] {
        -1
    } else if a[i] > b[i] {
        1
    } else {
        lex_cmp_from(a, b, i + 1)
    }
}

/// Three-way comparison of byte strings in lexicographic order.
#[verifier::opaque]
pub open spec fn lex_cmp(a: Seq<u8>, b: Seq<u8>) -> int {
    lex_cmp_from(a, b, 0)
}

proof fn lemma_lex_cmp_antisym(a: Seq<u8>, b: Seq<u8>, i: int)
    requires
        0 <= i,
    ensures
        lex_cmp_from(a, b, i) == -lex_cmp_from(b, a, i),
    decreases a.len() - i,
{
    if i < a.len() && i < b.len() && a[i] == b[i] {
        lemma_lex_cmp_antisym(a, b, i + 1);
    }
}

proof fn lemma_lex_cmp_eq(a: Seq<u8>, b: Seq<u8>, i: int)
    requires
        0 <= i <= a.len(),
        i <= b.len(),
        a.take(i) == b.take(i),
    ensures
        lex_cmp_from(a, b, i) == 0 <==> a == b,
    decreases a.len() - i,
{
    if i < a.len() && i < b.len() && a[i] == b[i] {
        assert(a.take(i + 1) =~= a.take(i).push(a[i]));
        assert(b.take(i + 1) =~= b.take(i).push(b[i]));
        lemma_lex_cmp_eq(a, b, i + 1);
    } else if i < a.len() && i < b.len() {
        assert(a[i] != b[i]);
    } else if i == a.len() && i == b.len() {
        assert(a =~= a.take(i));
        assert(b =~= b.take(i));
    } else if i == a.len() {
        assert(a.len() != b.len());
    } else {
        assert(a.len() != b.len());
    }
}

/// Compares two strings by their bytes.
pub fn compare_bytes(a: &str, b: &str) -> (r: i8)
    ensures
        r as int == lex_cmp(a.spec_bytes(), b.spec_bytes()),
        r == 0 <==> a.spec_bytes() == b.spec_bytes(),
        r as int == -lex_cmp(b.spec_bytes(), a.spec_bytes()),
{
    let x = a.as_bytes();
    let y = b.as_bytes();
    let mut i: usize = 0;
    proof {
        reveal(lex_cmp);
        assert(x@.take(0) =~= y@.take(0));
        lemma_lex_cmp_antisym(x@, y@, 0);
        lemma_lex_cmp_eq(x@, y@, 0);
    }
    while i < x.len() && i < y.len() && x[i] == y[i]
        invariant
            0 <= i <= x@.len(),
            i <= y@.len(),
            lex_cmp_from(x@, y@, i as int) == lex_cmp(x@, y@),
        decreases x@.len() - i,
    {
        i = i + 1;
    }
    if i >= x.len() {
        if i >= y.len() { 0 } else { -1 }
    } else if i >= y.len() {
        1
    } else if x[i] < y[i] {
        -1
    } else {
        1
    }
}

/// Whether `s` holds a string with the bytes `b`.
pub open spec fn holds_bytes(s: Seq<&str>, b: Seq<u8>) -> bool {
    exists|i: int| 0 <= i < s.len() && (#[trigger] s[i]).spec_bytes() == b
}

/// The pool made of `literals`: every literal that is not a single byte,
/// once each, and nothing else.
pub open spec fn pool_of(literals: Seq<&str>, pool: Seq<&str>) -> bool {
    &&& forall|i: int| 0 <= i < pool.len() ==> (#[trigger] pool[i]).spec_bytes().len() != 1
        && holds_bytes(literals, pool[i].spec_bytes())
    &&& forall|j: int| 0 <= j < literals.len() && (#[trigger] literals[j]).spec_bytes().len() != 1
        ==> holds_bytes(pool, literals[j].spec_bytes())
}

/// Strictly increasing in byte order (hence without repeats).
pub open spec fn strictly_sorted(pool: Seq<&str>) -> bool {
    forall|i: int| 0 <= i < pool.len() - 1 ==> lex_cmp(#[trigger] pool[i].spec_bytes(), pool[i + 1].spec_bytes()) < 0
}

proof fn lemma_lex_cmp_zero_iff(a: Seq<u8>, b: Seq<u8>)
    ensures
        lex_cmp(a, b) == 0 <==> a == b,
        lex_cmp(a, b) == -lex_cmp(b, a),
{
    reveal(lex_cmp);
    assert(a.take(0) =~= b.take(0));
    lemma_lex_cmp_eq(a, b, 0);
    lemma_lex_cmp_antisym(a, b, 0);
}

/// The first index of an entry of `pool` with the bytes of `s`, if any.
fn find_bytes(pool: &Vec<&str>, s: &str) -> (r: Option<usize>)
    ensures
        r matches Some(i) ==> i < pool@.len() && pool@[i as int].spec_bytes() == s.spec_bytes()
            && forall|q: int| 0 <= q < i ==> (#[trigger] pool@[q]).spec_bytes() != s.spec_bytes(),
        r is None ==> forall|q: int| 0 <= q < pool@.len() ==> (#[trigger] pool@[q]).spec_bytes() != s.spec_bytes(),
{
    let mut p: usize = 0;
    while p < pool.len()
        invariant
            0 <= p <= pool@.len(),
            forall|q: int| 0 <= q < p ==> (#[trigger] pool@[q]).spec_bytes() != s.spec_bytes(),
        decreases pool@.len() - p,
    {
        if compare_bytes(pool[p], s) == 0 {
            return Some(p);
        }
        p = p + 1;
    }
    None
}

/// No two entries with the same bytes.
pub open spec fn distinct_bytes(pool: Seq<&str>) -> bool {
    forall|i: int, j: int| 0 <= i < j < pool.len() ==> pool[i].spec_bytes() != pool[j].spec_bytes()
}

proof fn lemma_insert_order(before: Seq<&str>, p: int, s: &str, np: Seq<&str>)
    requires
        0 <= p <= before.len(),
        np == before.insert(p, s),
        strictly_sorted(before),
        forall|q: int| 0 <= q < p ==> lex_cmp(#[trigger] before[q].spec_bytes(), s.spec_bytes()) < 0,
        p < before.len() ==> lex_cmp(s.spec_bytes(), before[p].spec_bytes()) < 0,
    ensures
        strictly_sorted(np),
{
    assert forall|i: int| 0 <= i < np.len() - 1 implies lex_cmp(#[trigger] np[i].spec_bytes(), np[i + 1].spec_bytes()) < 0 by {
        if i + 1 < p {
            assert(np[i] == before[i] && np[i + 1] == before[i + 1]);
        } else if i + 1 == p {
            assert(np[i] == before[i] && np[i + 1] == s);
        } else if i == p {
            assert(np[i] == s && np[i + 1] == before[i]);
        } else {
            assert(np[i] == before[i - 1] && np[i + 1] == before[i]);
        }
    }
}

proof fn lemma_insert_distinct(before: Seq<&str>, p: int, s: &str, np: Seq<&str>)
    requires
        0 <= p <= before.len(),
        np == before.insert(p, s),
        distinct_bytes(before),
        forall|q: int| 0 <= q < before.len() ==> (#[trigger] before[q]).spec_bytes() != s.spec_bytes(),
    ensures
        distinct_bytes(np),
{
    assert forall|i: int, j: int| 0 <= i < j < np.len() implies np[i].spec_bytes() != np[j].spec_bytes() by {
        if i < p && j < p {
            assert(np[i] == before[i] && np[j] == before[j]);
        } else if i < p && j == p {
            assert(np[i] == before[i] && np[j] == s);
        } else if i < p {
            assert(np[i] == before[i] && np[j] == before[j - 1]);
        } else if i == p {
            assert(np[i] == s && np[j] == before[j - 1]);
        } else {
            assert(np[i] == before[i - 1] && np[j] == before[j - 1]);
        }
    }
}

proof fn lemma_insert_members(before: Seq<&str>, p: int, s: &str, np: Seq<&str>)
    requires
        0 <= p <= before.len(),
        np == before.insert(p, s),
    ensures
        holds_bytes(np, s.spec_bytes()),
        forall|i: int| 0 <= i < np.len() ==> (#[trigger] np[i]) == s || holds_bytes(before, np[i].spec_bytes()),
        forall|i: int| 0 <= i < before.len() ==> holds_bytes(np, (#[trigger] before[i]).spec_bytes()),
{
    assert(np[p] == s);
    assert forall|i: int| 0 <= i < np.len() implies (#[trigger] np[i]) == s || holds_bytes(before, np[i].spec_bytes()) by {
        if i < p {
            assert(np[i] == before[i]);
        } else if i > p {
            assert(np[i] == before[i - 1]);
        }
    }
    assert forall|i: int| 0 <= i < before.len() implies holds_bytes(np, (#[trigger] before[i]).spec_bytes()) by {
        if i < p {
            assert(np[i] == before[i]);
        } else {
            assert(np[i + 1] == before[i]);
        }
    }
}

/// Adds `s` to a sorted pool at its place in byte order, unless the pool
/// already holds its bytes.
fn add_literal<'a>(pool: &mut Vec<&'a str>, s: &'a str)
    requires
        strictly_sorted(old(pool)@),
        distinct_bytes(old(pool)@),
    ensures
        strictly_sorted(final(pool)@),
        distinct_bytes(final(pool)@),
        holds_bytes(final(pool)@, s.spec_bytes()),
        forall|i: int| 0 <= i < final(pool)@.len() ==> (#[trigger] final(pool)@[i]) == s
            || holds_bytes(old(pool)@, final(pool)@[i].spec_bytes()),
        forall|i: int| 0 <= i < old(pool)@.len() ==> holds_bytes(final(pool)@, (#[trigger] old(pool)@[i]).spec_bytes()),
{
    let ghost before = pool@;
    match find_bytes(pool, s) {
        Some(p) => {
            assert(pool@[p as int].spec_bytes() == s.spec_bytes());
            assert forall|i: int| 0 <= i < pool@.len() implies (#[trigger] pool@[i]) == s
                || holds_bytes(before, pool@[i].spec_bytes()) by {
                assert(before[i] == pool@[i]);
            }
        },
        None => {
            let mut p: usize = 0;
            while p < pool.len()
                invariant
                    0 <= p <= pool@.len(),
                    pool@ == before,
                    forall|q: int| 0 <= q < pool@.len() ==> (#[trigger] pool@[q]).spec_bytes() != s.spec_bytes(),
                    forall|q: int| 0 <= q < p ==> lex_cmp(#[trigger] pool@[q].spec_bytes(), s.spec_bytes()) < 0,
                ensures
                    0 <= p <= pool@.len(),
                    pool@ == before,
                    forall|q: int| 0 <= q < p ==> lex_cmp(#[trigger] pool@[q].spec_bytes(), s.spec_bytes()) < 0,
                    p < pool@.len() ==> lex_cmp(pool@[p as int].spec_bytes(), s.spec_bytes()) > 0,
                decreases pool@.len() - p,
            {
                let c = compare_bytes(pool[p], s);
                if c > 0 {
                    break;
                }
                assert(pool@[p as int].spec_bytes() != s.spec_bytes());
                p = p + 1;
            }
            proof {
                if p < pool@.len() {
                    lemma_lex_cmp_zero_iff(pool@[p as int].spec_bytes(), s.spec_bytes());
                }
            }
            pool.insert(p, s);
            proof {
                lemma_insert_order(before, p as int, s, pool@);
                lemma_insert_distinct(before, p as int, s, pool@);
                lemma_insert_members(before, p as int, s, pool@);
            }
        },
    }
}

proof fn lemma_pool_skip(lits0: Seq<&str>, s: &str, pool: Seq<&str>)
    requires
        pool_of(lits0, pool),
        s.spec_bytes().len() == 1,
    ensures
        pool_of(lits0.push(s), pool),
{
    let lits = lits0.push(s);
    assert forall|i: int| 0 <= i < pool.len() implies (#[trigger] pool[i]).spec_bytes().len() != 1
        && holds_bytes(lits, pool[i].spec_bytes()) by {
        let w = choose|w: int| 0 <= w < lits0.len() && (#[trigger] lits0[w]).spec_bytes() == pool[i].spec_bytes();
        assert(lits[w] == lits0[w]);
    }
    assert forall|j: int| 0 <= j < lits.len() && (#[trigger] lits[j]).spec_bytes().len() != 1
        implies holds_bytes(pool, lits[j].spec_bytes()) by {
        if j < lits0.len() {
            assert(lits[j] == lits0[j]);
        }
    }
}

proof fn lemma_pool_add(lits0: Seq<&str>, s: &str, before: Seq<&str>, after: Seq<&str>)
    requires
        pool_of(lits0, before),
        s.spec_bytes().len() != 1,
        holds_bytes(after, s.spec_bytes()),
        forall|i: int| 0 <= i < after.len() ==> (#[trigger] after[i]) == s
            || holds_bytes(before, after[i].spec_bytes()),
        forall|i: int| 0 <= i < before.len() ==> holds_bytes(after, (#[trigger] before[i]).spec_bytes()),
    ensures
        pool_of(lits0.push(s), after),
{
    let lits = lits0.push(s);
    assert forall|i: int| 0 <= i < after.len() implies (#[trigger] after[i]).spec_bytes().len() != 1
        && holds_bytes(lits, after[i].spec_bytes()) by {
        if after[i] == s {
            assert(lits[lits0.len() as int] == s);
        } else {
            let w = choose|w: int| 0 <= w < before.len() && (#[trigger] before[w]).spec_bytes() == after[i].spec_bytes();
            assert(holds_bytes(lits0, before[w].spec_bytes()));
            let v = choose|v: int| 0 <= v < lits0.len() && (#[trigger] lits0[v]).spec_bytes() == before[w].spec_bytes();
            assert(lits[v] == lits0[v]);
        }
    }
    assert forall|j: int| 0 <= j < lits.len() && (#[trigger] lits[j]).spec_bytes().len() != 1
        implies holds_bytes(after, lits[j].spec_bytes()) by {
        if j < lits0.len() {
            assert(lits[j] == lits0[j]);
            assert(holds_bytes(before, lits0[j].spec_bytes()));
            let w = choose|w: int| 0 <= w < before.len() && (#[trigger] before[w]).spec_bytes() == lits0[j].spec_bytes();
            assert(holds_bytes(after, before[w].spec_bytes()));
        } else {
            assert(lits[j] == s);
        }
    }
}

/// Builds the pool from the literals that the program uses: literals of
/// one byte are left out, repeats are dropped, and the rest is sorted in
/// byte order.
pub fn prepare_compiletime_string_pool<'a>(literals: &Vec<&'a str>) -> (pool: Vec<&'a str>)
    ensures
        pool_of(literals@, pool@),
        strictly_sorted(pool@),
        distinct_bytes(pool@),
{
    let mut pool: Vec<&'a str> = Vec::new();
    let mut k: usize = 0;
    while k < literals.len()
        invariant
            0 <= k <= literals@.len(),
            pool_of(literals@.take(k as int), pool@),
            strictly_sorted(pool@),
            distinct_bytes(pool@),
        decreases literals@.len() - k,
    {
        let s = literals[k];
        assert(literals@.take(k as int + 1) =~= literals@.take(k as int).push(s));
        let ghost before = pool@;
        if s.as_bytes().len() != 1 {
            add_literal(&mut pool, s);
            proof {
                lemma_pool_add(literals@.take(k as int), s, before, pool@);
            }
        } else {
            proof {
                lemma_pool_skip(literals@.take(k as int), s, pool@);
            }
        }
        k = k + 1;
    }
    assert(literals@.take(literals@.len() as int) =~= literals@);
    pool
}

/// The number of a literal: its byte if it is one byte long, otherwise 256
/// plus its index in the pool.
pub fn string_pool_index(pool: &Vec<&str>, val: &str) -> (r: usize)
    requires
        val.spec_bytes().len() == 1 || holds_bytes(pool@, val.spec_bytes()),
        pool@.len() <= usize::MAX - FIRST_POOLED,
    ensures
        val.spec_bytes().len() == 1 ==> r == val.spec_bytes()[0],
        val.spec_bytes().len() != 1 ==> FIRST_POOLED <= r < FIRST_POOLED + pool@.len()
            && pool@[r - FIRST_POOLED].spec_bytes() == val.spec_bytes()
            && forall|q: int| 0 <= q < r - FIRST_POOLED ==> (#[trigger] pool@[q]).spec_bytes() != val.spec_bytes(),
{
    let bytes = val.as_bytes();
    if bytes.len() == 1 {
        return bytes[0] as usize;
    }
    match find_bytes(pool, val) {
        Some(i) => FIRST_POOLED + i,
        None => {
            proof {
                let w = choose|w: int| 0 <= w < pool@.len() && (#[trigger] pool@[w]).spec_bytes() == val.spec_bytes();
                assert(pool@[w].spec_bytes() != val.spec_bytes());
            }
            0
        },
    }
}

/// The check value of the pool.
pub fn generate_checksum() -> (r: usize)
    ensures
        r == POOL_CHECKSUM,
{
    POOL_CHECKSUM
}

/// The check value that the pool file ends with.
pub fn string_pool_checksum() -> (r: usize)
    ensures
        r == POOL_CHECKSUM,
{
    generate_checksum()
}

/// The decimal digits of `n`, most significant first, in ASCII.
pub open spec fn decimal(n: nat) -> Seq<u8>
    decreases n,
{
    if n < 10 {
        seq![(48 + n) as u8]
    } else {
        decimal(n / 10).push((48 + n % 10) as u8)
    }
}

/// The decimal digits of `n`, with leading zeros up to `width` digits.
pub open spec fn zero_padded(n: nat, width: nat) -> Seq<u8> {
    let d = decimal(n);
    if d.len() >= width {
        d
    } else {
        Seq::new((width - d.len()) as nat, |i: int| 48u8) + d
    }
}

/// The entries of the pool file: for each string, its length in at least
/// two digits, its bytes and a newline.
pub open spec fn pool_entries(pool: Seq<&str>) -> Seq<u8>
    decreases pool.len(),
{
    if pool.len() == 0 {
        Seq::empty()
    } else {
        let s = pool.last();
        pool_entries(pool.drop_last()) + zero_padded(s.spec_bytes().len(), 2) + s.spec_bytes() + seq![10u8]
    }
}

/// The pool file: the entries, then `*` and the check value in at least
/// nine digits.
pub open spec fn pool_file(pool: Seq<&str>, checksum: nat) -> Seq<u8> {
    pool_entries(pool) + seq![42u8] + zero_padded(checksum, 9)
}

fn push_decimal(out: &mut Vec<u8>, n: usize)
    ensures
        final(out)@ == old(out)@ + decimal(n as nat),
    decreases n,
{
    if n >= 10 {
        push_decimal(out, n / 10);
    }
    out.push((48 + n % 10) as u8);
    proof {
        if n < 10 {
            assert(decimal(n as nat) =~= seq![(48 + n) as u8]);
        }
    }
}

fn digit_count(n: usize) -> (r: usize)
    ensures
        r == decimal(n as nat).len(),
        r <= 20,
    decreases n,
{
    if n < 10 {
        1
    } else {
        let r = digit_count(n / 10);
        proof {
            assert(n / 10 < n);
            lemma_decimal_len_bound(n as nat);
        }
        r + 1
    }
}

proof fn lemma_decimal_len_bound(n: nat)
    requires
        n <= usize::MAX,
    ensures
        decimal(n).len() <= 20,
{
    reveal_with_fuel(pow10, 21);
    assert(pow10(20) == 100_000_000_000_000_000_000nat);
    lemma_decimal_len(n, 0x1_0000_0000_0000_0000, 20);
}

proof fn lemma_decimal_len(n: nat, bound: nat, d: nat)
    requires
        n < bound,
        bound <= pow10(d),
        d >= 1,
    ensures
        decimal(n).len() <= d,
    decreases n,
{
    if n >= 10 {
        assert(d >= 2) by {
            if d == 1 {
                assert(pow10(1) == 10 * pow10(0));
                assert(pow10(0) == 1);
            }
        }
        let d1 = (d - 1) as nat;
        let p1 = pow10(d1);
        assert(pow10(d) == 10 * p1);
        assert(n / 10 < p1) by (nonlinear_arith)
            requires
                n < bound,
                bound <= 10 * p1,
        ;
        lemma_decimal_len(n / 10, p1, d1);
        assert(decimal(n).len() == decimal(n / 10).len() + 1);
    }
}

pub open spec fn pow10(d: nat) -> nat
    decreases d,
{
    if d == 0 { 1 } else { 10 * pow10((d - 1) as nat) }
}

fn push_padded(out: &mut Vec<u8>, n: usize, width: usize)
    ensures
        final(out)@ == old(out)@ + zero_padded(n as nat, width as nat),
{
    let digits = digit_count(n);
    let ghost start = out@;
    if digits < width {
        let mut k: usize = 0;
        while k < width - digits
            invariant
                k <= width - digits,
                out@ == start + Seq::new(k as nat, |i: int| 48u8),
            decreases width - digits - k,
        {
            out.push(48);
            k = k + 1;
            assert(out@ =~= start + Seq::new(k as nat, |i: int| 48u8));
        }
    }
    let ghost mid = out@;
    push_decimal(out, n);
    assert(out@ =~= start + zero_padded(n as nat, width as nat));
}

/// The pool file: each string of the pool (all shorter than 256 bytes) as
/// its length in two or three digits, its bytes and a newline; then `*`
/// and the check value in nine digits.
pub fn generate_initial_memory_pool_file(pool: &Vec<&str>) -> (r: Vec<u8>)
    requires
        forall|i: int| 0 <= i < pool@.len() ==> (#[trigger] pool@[i]).spec_bytes().len() < 256,
    ensures
        r@ == pool_file(pool@, POOL_CHECKSUM as nat),
{
    let mut out: Vec<u8> = Vec::new();
    let mut k: usize = 0;
    while k < pool.len()
        invariant
            k <= pool@.len(),
            out@ == pool_entries(pool@.take(k as int)),
        decreases pool@.len() - k,
    {
        let s = pool[k];
        let bytes = s.as_bytes();
        push_padded(&mut out, bytes.len(), 2);
        let ghost before = out@;
        let mut j: usize = 0;
        while j < bytes.len()
            invariant
                j <= bytes@.len(),
                out@ == before + bytes@.take(j as int),
            decreases bytes@.len() - j,
        {
            out.push(bytes[j]);
            j = j + 1;
            assert(out@ =~= before + bytes@.take(j as int));
        }
        out.push(10);
        proof {
            let t = pool@.take(k as int + 1);
            assert(t.drop_last() =~= pool@.take(k as int));
            assert(t.last() == s);
            assert(bytes@.take(bytes@.len() as int) =~= bytes@);
            assert(out@ =~= pool_entries(t));
        }
        k = k + 1;
    }
    assert(pool@.take(pool@.len() as int) =~= pool@);
    out.push(42);
    push_padded(&mut out, string_pool_checksum(), 9);
    out
}

} // verus!

use vstd::prelude::*;

verus! {

/// Number of windows that `split_into_sections` cuts a buffer of `len` items into:
/// a single window when the buffer fits in one, otherwise one per started window.
pub open spec fn section_count(len: nat, size: nat) -> nat {
    if len <= size {
        1
    } else if len % size == 0 {
        len / size
    } else {
        len / size + 1
    }
}

/// The `i`-th window of `s`: `size` items from `i * size` on, cut short at the end of `s`.
pub open spec fn section<T>(s: Seq<T>, size: nat, i: nat) -> Seq<T> {
    let end = if (i + 1) * size <= s.len() {
        (i + 1) * size
    } else {
        s.len()
    };
    s.subrange((i * size) as int, end as int)
}

pub proof fn lemma_section_bounds(len: nat, size: nat, k: nat)
    requires
        size > 0,
        len > size,
        k < section_count(len, size),
    ensures
        k * size < len,
        (k + 1) * size == k * size + size,
        k + 1 == section_count(len, size) ==> (if (k + 1) * size <= len {
            (k + 1) * size
        } else {
            len
        }) == len,
        k + 1 < section_count(len, size) ==> (k + 1) * size <= len,
{
    let q = len / size;
    let rem = len % size;
    assert(len == q * size + rem) by (nonlinear_arith)
        requires
            size > 0,
            q == len / size,
            rem == len % size,
    ;
    assert((k + 1) * size == k * size + size) by (nonlinear_arith);
    if rem == 0 {
        assert(k + 1 <= q);
        assert((k + 1) * size <= q * size) by (nonlinear_arith)
            requires
                k + 1 <= q,
        ;
        if k + 1 == q {
            assert((k + 1) * size == len);
        }
    } else {
        assert(k <= q);
        assert(k * size <= q * size) by (nonlinear_arith)
            requires
                k <= q,
        ;
        if k + 1 < q + 1 {
            assert((k + 1) * size <= q * size) by (nonlinear_arith)
                requires
                    k + 1 <= q,
            ;
        } else {
            assert((k + 1) * size > len);
        }
    }
}

/// Partitions `slice` into consecutive windows of `sections` items; every window but the
/// last is full, and a slice that fits in one window (the empty one included) gives one.
pub fn split_into_sections<T>(slice: &[T], sections: usize) -> (r: Vec<&[T]>)
    requires
        sections > 0,
    ensures
        r@.len() == section_count(slice@.len(), sections as nat),
        forall|i: int|
            0 <= i < r@.len() ==> (#[trigger] r@[i])@ == section(slice@, sections as nat, i as nat),
{
    let len = slice.len();
    let mut r: Vec<&[T]> = Vec::new();
    if len <= sections {
        r.push(slice);
        assert((0nat + 1) * (sections as nat) == sections as nat) by (nonlinear_arith);
        assert(0nat * (sections as nat) == 0) by (nonlinear_arith);
        assert(section(slice@, sections as nat, 0) =~= slice@);
        return r;
    }
    let count: usize = if len % sections == 0 {
        len / sections
    } else {
        assert(len / sections < len) by (nonlinear_arith)
            requires
                sections >= 2,
                len > 0,
        ;
        len / sections + 1
    };
    let mut k: usize = 0;
    while k < count
        invariant
            sections > 0,
            len == slice@.len(),
            len > sections,
            count == section_count(len as nat, sections as nat),
            k <= count,
            r@.len() == k,
            forall|i: int|
                0 <= i < r@.len() ==> (#[trigger] r@[i])@ == section(
                    slice@,
                    sections as nat,
                    i as nat,
                ),
        decreases count - k,
    {
        proof {
            lemma_section_bounds(len as nat, sections as nat, k as nat);
        }
        let start: usize = k * sections;
        let end: usize = if k + 1 == count {
            len
        } else {
            start + sections
        };
        r.push(vstd::slice::slice_subrange(slice, start, end));
        k = k + 1;
    }
    r
}

} // verus!

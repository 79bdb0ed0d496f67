//! What the memory map keeps: its mappings in address order without
//! overlaps, and the addresses they cover.
use vstd::prelude::*;
use crate::task::vm::{
    Mapping, MmapFile, maps_wf, merged, insert_merge_after_spec, cut, trimmed_start, unmap_scan, unmap_scan_ok,
    page_aligned, page_up, move_prev, mmap_cleared, mmap_place, mmap_mapping, MAP_FIXED, lemma_fixed_scan,
    lemma_hole_is_free, merge_prev_next_spec, merge_prev_step, merge_next_step, mprotect_scan, mprotect_scan_ok,
    mprotect_refused, lemma_merge_prev_next_progress, lemma_insert_merge_after_progress,
};

verus! {

/// Mapping `m` holds address `a`.
pub open spec fn holds(m: Mapping, a: int) -> bool {
    m.start <= a < m.end
}

/// Some mapping of `s` holds address `a`.
pub open spec fn covers(s: Seq<Mapping>, a: int) -> bool {
    exists|i: int| 0 <= i < s.len() && #[trigger] holds(s[i], a)
}

/// Replacing mapping `i` of an ordered list by `x`, which stays between its
/// neighbours, keeps the list ordered; the addresses covered are those of
/// the other mappings and of `x`.
proof fn lemma_update_ordered(s: Seq<Mapping>, i: int, x: Mapping)
    requires
        maps_wf(s),
        0 <= i < s.len(),
        x.start < x.end,
        i > 0 ==> s[i - 1].end <= x.start,
        i + 1 < s.len() ==> x.end <= s[i + 1].start,
    ensures
        maps_wf(s.update(i, x)),
        forall|a: int| covers(s.update(i, x), a) <==> holds(x, a)
            || exists|j: int| 0 <= j < s.len() && j != i && #[trigger] holds(s[j], a),
{
    let t = s.update(i, x);
    assert forall|p: int, q: int| 0 <= p < q < t.len() implies #[trigger] t[p].end <= #[trigger] t[q].start by {
        if p == i {
            if q > i + 1 {
                assert(s[i + 1].end <= s[q].start);
                assert(s[i + 1].start < s[i + 1].end);
            }
        } else if q == i {
            if p < i - 1 {
                assert(s[p].end <= s[i - 1].start);
                assert(s[i - 1].start < s[i - 1].end);
            }
        }
    }
    assert forall|a: int| covers(t, a) <==> holds(x, a)
        || exists|j: int| 0 <= j < s.len() && j != i && #[trigger] holds(s[j], a) by {
        if covers(t, a) {
            let k = choose|k: int| 0 <= k < t.len() && #[trigger] holds(t[k], a);
            if k != i {
                assert(holds(s[k], a));
            }
        }
        if holds(x, a) {
            assert(holds(t[i], a));
        }
        if exists|j: int| 0 <= j < s.len() && j != i && #[trigger] holds(s[j], a) {
            let j = choose|j: int| 0 <= j < s.len() && j != i && #[trigger] holds(s[j], a);
            assert(holds(t[j], a));
        }
    }
}

/// Inserting `x` at `i` of an ordered list, between the mappings that will
/// be its neighbours, keeps the list ordered; it covers what it covered
/// and what `x` holds.
proof fn lemma_insert_ordered(s: Seq<Mapping>, i: int, x: Mapping)
    requires
        maps_wf(s),
        0 <= i <= s.len(),
        x.start < x.end,
        i > 0 ==> s[i - 1].end <= x.start,
        i < s.len() ==> x.end <= s[i].start,
    ensures
        maps_wf(s.insert(i, x)),
        forall|a: int| covers(s.insert(i, x), a) <==> covers(s, a) || holds(x, a),
{
    let t = s.insert(i, x);
    assert forall|p: int, q: int| 0 <= p < q < t.len() implies #[trigger] t[p].end <= #[trigger] t[q].start by {
        if p == i {
            if q > i + 1 {
                assert(s[i].end <= s[q - 1].start);
                assert(s[i].start < s[i].end);
            }
        } else if q == i {
            if p < i - 1 {
                assert(s[p].end <= s[i - 1].start);
                assert(s[i - 1].start < s[i - 1].end);
            }
        } else {
            let sp = if p < i { p } else { p - 1 };
            let sq = if q < i { q } else { q - 1 };
            assert(t[p] == s[sp] && t[q] == s[sq]);
        }
    }
    assert forall|k: int| 0 <= k < t.len() implies #[trigger] t[k].start < t[k].end by {
        if k != i {
            let sk = if k < i { k } else { k - 1 };
            assert(t[k] == s[sk]);
        }
    }
    assert forall|a: int| covers(t, a) <==> covers(s, a) || holds(x, a) by {
        if covers(t, a) {
            let k = choose|k: int| 0 <= k < t.len() && #[trigger] holds(t[k], a);
            if k < i {
                assert(holds(s[k], a));
            } else if k > i {
                assert(holds(s[k - 1], a));
            }
        }
        if covers(s, a) {
            let k = choose|k: int| 0 <= k < s.len() && #[trigger] holds(s[k], a);
            if k < i {
                assert(holds(t[k], a));
            } else {
                assert(holds(t[k + 1], a));
            }
        }
        if holds(x, a) {
            assert(holds(t[i], a));
        }
    }
}

/// Removing mapping `i` of an ordered list keeps it ordered; the addresses
/// covered are those of the other mappings.
proof fn lemma_remove_ordered(s: Seq<Mapping>, i: int)
    requires
        maps_wf(s),
        0 <= i < s.len(),
    ensures
        maps_wf(s.remove(i)),
        forall|a: int| covers(s.remove(i), a) <==> exists|j: int| 0 <= j < s.len() && j != i && #[trigger] holds(s[j], a),
{
    let t = s.remove(i);
    assert forall|p: int, q: int| 0 <= p < q < t.len() implies #[trigger] t[p].end <= #[trigger] t[q].start by {
        let sp = if p < i { p } else { p + 1 };
        let sq = if q < i { q } else { q + 1 };
        assert(t[p] == s[sp] && t[q] == s[sq]);
    }
    assert forall|k: int| 0 <= k < t.len() implies #[trigger] t[k].start < t[k].end by {
        let sk = if k < i { k } else { k + 1 };
        assert(t[k] == s[sk]);
    }
    assert forall|a: int| covers(t, a) <==> exists|j: int| 0 <= j < s.len() && j != i && #[trigger] holds(s[j], a) by {
        if covers(t, a) {
            let k = choose|k: int| 0 <= k < t.len() && #[trigger] holds(t[k], a);
            if k < i {
                assert(holds(s[k], a));
            } else {
                assert(holds(s[k + 1], a));
            }
        }
        if exists|j: int| 0 <= j < s.len() && j != i && #[trigger] holds(s[j], a) {
            let j = choose|j: int| 0 <= j < s.len() && j != i && #[trigger] holds(s[j], a);
            if j < i {
                assert(holds(t[j], a));
            } else {
                assert(holds(t[j - 1], a));
            }
        }
    }
}

/// In an ordered list, putting `m` after the mapping at cursor `c` where it
/// fits (after that mapping, before the next) keeps the list ordered,
/// merged or not; the list covers what it covered and what `m` holds.
pub proof fn lemma_insert_merge_after_ordered(s: Seq<Mapping>, c: int, m: Mapping)
    requires
        maps_wf(s),
        0 <= c < s.len(),
        m.start < m.end,
        s[c].end <= m.start,
        c + 1 < s.len() ==> m.end <= s[c + 1].start,
    ensures
        maps_wf(insert_merge_after_spec(s, c, m).0),
        forall|a: int| covers(insert_merge_after_spec(s, c, m).0, a) <==> covers(s, a) || holds(m, a),
{
    let cur = s[c];
    let r = insert_merge_after_spec(s, c, m).0;
    assert(cur.start < cur.end);
    if merged(m, cur) is Some {
        let mm = merged(m, cur)->0;
        assert(mm.start == cur.start && mm.end == m.end);
        let s1 = s.remove(c);
        if c + 1 < s.len() && merged(s[c + 1], mm) is Some {
            let next = s[c + 1];
            let nn = merged(next, mm)->0;
            assert(next.start < next.end);
            assert(nn.start == cur.start && nn.end == next.end);
            lemma_remove_ordered(s, c);
            assert(s1[c] == next);
            if c > 0 {
                assert(s1[c - 1] == s[c - 1]);
            }
            if c + 1 < s1.len() {
                assert(s1[c + 1] == s[c + 2]);
                assert(s[c + 1].end <= s[c + 2].start);
            }
            assert(r == s1.update(c, nn));
            lemma_update_ordered(s1, c, nn);
            assert forall|a: int| covers(r, a) <==> covers(s, a) || holds(m, a) by {
                if covers(r, a) && !holds(nn, a) {
                    let j = choose|j: int| 0 <= j < s1.len() && j != c && #[trigger] holds(s1[j], a);
                    if j < c {
                        assert(holds(s[j], a));
                    } else {
                        assert(holds(s[j + 1], a));
                    }
                }
                if holds(nn, a) {
                    if a < cur.end {
                        assert(holds(s[c], a));
                    } else if a >= next.start {
                        assert(holds(s[c + 1], a));
                    }
                }
                if covers(s, a) {
                    let k = choose|k: int| 0 <= k < s.len() && #[trigger] holds(s[k], a);
                    if k < c {
                        assert(holds(s1[k], a));
                    } else if k > c + 1 {
                        assert(holds(s1[k - 1], a));
                    } else {
                        assert(holds(nn, a));
                    }
                }
                if holds(m, a) {
                    assert(holds(nn, a));
                }
            }
        } else {
            assert(r =~= s.update(c, mm));
            lemma_update_ordered(s, c, mm);
            assert forall|a: int| covers(r, a) <==> covers(s, a) || holds(m, a) by {
                if covers(r, a) && !holds(mm, a) {
                    let j = choose|j: int| 0 <= j < s.len() && j != c && #[trigger] holds(s[j], a);
                    assert(holds(s[j], a));
                }
                if holds(mm, a) && a < cur.end {
                    assert(holds(s[c], a));
                }
                if covers(s, a) {
                    let k = choose|k: int| 0 <= k < s.len() && #[trigger] holds(s[k], a);
                    if k != c {
                        assert(holds(s.update(c, mm)[k], a));
                    } else {
                        assert(holds(mm, a));
                    }
                }
                if holds(m, a) {
                    assert(holds(mm, a));
                }
            }
        }
    } else {
        if c + 1 < s.len() && merged(s[c + 1], m) is Some {
            let next = s[c + 1];
            let nn = merged(next, m)->0;
            assert(next.start < next.end);
            assert(nn.start == m.start && nn.end == next.end);
            if c + 2 < s.len() {
                assert(s[c + 1].end <= s[c + 2].start);
            }
            assert(r == s.update(c + 1, nn));
            lemma_update_ordered(s, c + 1, nn);
            assert forall|a: int| covers(r, a) <==> covers(s, a) || holds(m, a) by {
                if covers(r, a) && !holds(nn, a) {
                    let j = choose|j: int| 0 <= j < s.len() && j != c + 1 && #[trigger] holds(s[j], a);
                    assert(holds(s[j], a));
                }
                if holds(nn, a) && a >= next.start {
                    assert(holds(s[c + 1], a));
                }
                if covers(s, a) {
                    let k = choose|k: int| 0 <= k < s.len() && #[trigger] holds(s[k], a);
                    if k != c + 1 {
                        assert(holds(s.update(c + 1, nn)[k], a));
                    } else {
                        assert(holds(nn, a));
                    }
                }
                if holds(m, a) {
                    assert(holds(nn, a));
                }
            }
        } else {
            assert(r =~= s.insert(c + 1, m));
            lemma_insert_ordered(s, c + 1, m);
        }
    }
}

/// Cutting the middle `start..end` out of mapping `c` of an ordered list,
/// whose other mappings lie outside the range, keeps it ordered and leaves
/// exactly what was covered outside the range.
proof fn lemma_unmap_mid(s: Seq<Mapping>, c: int, start: int, end: int)
    requires
        maps_wf(s),
        0 <= c < s.len(),
        s[c].start < start < end < s[c].end,
        end <= usize::MAX,
    ensures
        ({
            let r = insert_merge_after_spec(s.update(c, cut(s[c], start).0), c, cut(s[c], end).1).0;
            &&& maps_wf(r)
            &&& forall|a: int| covers(r, a) <==> covers(s, a) && !(start <= a < end)
        }),
{
    let m = s[c];
    let left = cut(m, start).0;
    let right = cut(m, end).1;
    let kept = s.update(c, left);
    let r = insert_merge_after_spec(kept, c, right).0;
    if c > 0 {
        assert(s[c - 1].end <= m.start);
    }
    if c + 1 < s.len() {
        assert(m.end <= s[c + 1].start);
    }
    lemma_update_ordered(s, c, left);
    lemma_insert_merge_after_ordered(kept, c, right);
    assert forall|a: int| covers(r, a) <==> covers(s, a) && !(start <= a < end) by {
        if covers(s, a) && !(start <= a < end) {
            let k = choose|k: int| 0 <= k < s.len() && #[trigger] holds(s[k], a);
            if k != c {
                assert(holds(kept[k], a));
            } else if a < start {
                assert(holds(kept[c], a));
            } else {
                assert(holds(right, a));
            }
        }
        if covers(kept, a) {
            if !holds(left, a) {
                let j = choose|j: int| 0 <= j < s.len() && j != c && #[trigger] holds(s[j], a);
                if j < c {
                    assert(s[j].end <= s[c].start);
                } else {
                    assert(s[c].end <= s[j].start);
                }
            } else {
                assert(holds(s[c], a));
            }
        }
        if holds(right, a) {
            assert(holds(s[c], a));
        }
    }
}

/// Replacing mapping `c` of an ordered list by `x`, a part of it, keeps the
/// list ordered; an address is covered after where `x` holds it or another
/// mapping does.
proof fn lemma_shrink_ordered(s: Seq<Mapping>, c: int, x: Mapping)
    requires
        maps_wf(s),
        0 <= c < s.len(),
        s[c].start <= x.start < x.end <= s[c].end,
    ensures
        maps_wf(s.update(c, x)),
        forall|a: int| covers(s.update(c, x), a) ==> covers(s, a),
        forall|a: int| covers(s, a) && !holds(s[c], a) ==> covers(s.update(c, x), a),
        forall|a: int| holds(x, a) ==> covers(s.update(c, x), a),
        forall|a: int| covers(s.update(c, x), a) && !holds(x, a) ==> exists|j: int|
            0 <= j < s.len() && j != c && #[trigger] holds(s[j], a),
{
    let m = s[c];
    if c > 0 {
        assert(s[c - 1].end <= m.start);
    }
    if c + 1 < s.len() {
        assert(m.end <= s[c + 1].start);
    }
    lemma_update_ordered(s, c, x);
    assert forall|a: int| covers(s.update(c, x), a) implies covers(s, a) by {
        if holds(x, a) {
            assert(holds(s[c], a));
        } else {
            let j = choose|j: int| 0 <= j < s.len() && j != c && #[trigger] holds(s[j], a);
            assert(holds(s[j], a));
        }
    }
    assert forall|a: int| covers(s, a) && !holds(s[c], a) implies covers(s.update(c, x), a) by {
        let k = choose|k: int| 0 <= k < s.len() && #[trigger] holds(s[k], a);
        assert(k != c);
        assert(holds(s.update(c, x)[k], a));
    }
}


/// Cutting the beginning (up to `end`) off mapping `c` of an ordered list,
/// where the range `start..end` starts at or before it and no other mapping
/// meets the range, keeps it ordered and leaves what was covered outside.
proof fn lemma_unmap_begin(s: Seq<Mapping>, c: int, start: int, end: int)
    requires
        maps_wf(s),
        0 <= c < s.len(),
        forall|j: int| 0 <= j < c ==> (#[trigger] s[j]).end <= start,
        start <= s[c].start < end < s[c].end,
        end <= usize::MAX,
    ensures
        maps_wf(s.update(c, trimmed_start(s[c], end))),
        forall|a: int| covers(s.update(c, trimmed_start(s[c], end)), a) <==> covers(s, a) && !(start <= a < end),
{
    let m = s[c];
    let x = trimmed_start(m, end);
    assert(x.start == end && x.end == m.end);
    lemma_shrink_ordered(s, c, x);
    let t = s.update(c, x);
    assert forall|a: int| covers(t, a) <==> covers(s, a) && !(start <= a < end) by {
        if covers(s, a) && !(start <= a < end) {
            let k = choose|k: int| 0 <= k < s.len() && #[trigger] holds(s[k], a);
            if k == c {
                assert(holds(x, a));
            } else {
                if k < c {
                    assert(s[k].end <= s[c].start);
                } else {
                    assert(s[c].end <= s[k].start);
                }
                assert(!holds(s[c], a));
            }
        }
        if covers(t, a) && !holds(x, a) {
            let j = choose|j: int| 0 <= j < s.len() && j != c && #[trigger] holds(s[j], a);
            if j < c {
                assert(s[j].end <= start);
            } else {
                assert(s[c].end <= s[j].start);
            }
        }
    }
}

/// Cutting the end (from `start`) off mapping `c` of an ordered list keeps
/// it ordered, leaves every mapping up to `c` ending at or below `start`,
/// and leaves what was covered outside `start..end` (where the range ends
/// at or after the mapping).
proof fn lemma_unmap_end(s: Seq<Mapping>, c: int, start: int, end: int)
    requires
        maps_wf(s),
        0 <= c < s.len(),
        forall|j: int| 0 <= j < c ==> (#[trigger] s[j]).end <= start,
        s[c].start < start < s[c].end <= end,
        end <= usize::MAX,
    ensures
        ({
            let t = s.update(c, Mapping { end: start as usize, ..s[c] });
            &&& maps_wf(t)
            &&& forall|j: int| 0 <= j < c + 1 ==> (#[trigger] t[j]).end <= start
            &&& forall|a: int| covers(t, a) && !(start <= a < end) <==> covers(s, a) && !(start <= a < end)
        }),
{
    let m = s[c];
    let x = Mapping { end: start as usize, ..m };
    assert(x.start == m.start && x.end == start);
    lemma_shrink_ordered(s, c, x);
    let t = s.update(c, x);
    assert forall|j: int| 0 <= j < c + 1 implies (#[trigger] t[j]).end <= start by {
        if j < c {
            assert(t[j] == s[j]);
        }
    }
    assert forall|a: int| covers(t, a) && !(start <= a < end) <==> covers(s, a) && !(start <= a < end) by {
        if covers(s, a) && !(start <= a < end) {
            let k = choose|k: int| 0 <= k < s.len() && #[trigger] holds(s[k], a);
            if k == c {
                assert(holds(x, a));
            } else {
                if k < c {
                    assert(s[k].end <= s[c].start);
                } else {
                    assert(s[c].end <= s[k].start);
                }
                assert(!holds(s[c], a));
            }
        }
    }
}

/// Unmapping `start..end` from an ordered list, from cursor `c` on (past
/// mappings that end at or below `start`), keeps it ordered and leaves
/// exactly the addresses covered outside the range.
#[verifier::spinoff_prover]
proof fn lemma_unmap_scan_ordered(s: Seq<Mapping>, c: int, start: int, end: int, success: bool)
    requires
        maps_wf(s),
        0 <= c <= s.len(),
        forall|j: int| 0 <= j < c ==> (#[trigger] s[j]).end <= start,
        unmap_scan_ok(s, c, start, end),
        0 <= start <= end <= usize::MAX,
    ensures
        maps_wf(unmap_scan(s, c, start, end, success).0),
        forall|a: int| covers(unmap_scan(s, c, start, end, success).0, a) <==> covers(s, a) && !(start <= a < end),
    decreases s.len() - c,
{
    let u = unmap_scan(s, c, start, end, success);
    if c >= s.len() {
        assert forall|a: int| covers(u.0, a) <==> covers(s, a) && !(start <= a < end) by {
            if covers(s, a) {
                let k = choose|k: int| 0 <= k < s.len() && #[trigger] holds(s[k], a);
                assert(s[k].end <= start);
            }
        }
        assert(forall|a: int| covers(unmap_scan(s, c, start, end, success).0, a) <==> covers(s, a) && !(start <= a < end));
    } else if s[c].end <= start {
        lemma_unmap_scan_ordered(s, c + 1, start, end, success);
        assert(forall|a: int| covers(unmap_scan(s, c, start, end, success).0, a) <==> covers(s, a) && !(start <= a < end));
    } else {
        let m = s[c];
        assert(m.start < m.end);
        if end <= m.start {
            assert forall|a: int| covers(u.0, a) <==> covers(s, a) && !(start <= a < end) by {
                if covers(s, a) {
                    let k = choose|k: int| 0 <= k < s.len() && #[trigger] holds(s[k], a);
                    if k > c {
                        assert(s[c].end <= s[k].start);
                    }
                }
            }
            assert(forall|a: int| covers(unmap_scan(s, c, start, end, success).0, a) <==> covers(s, a) && !(start <= a < end));
        } else if start > m.start && end < m.end {
            lemma_unmap_mid(s, c, start, end);
            assert(u.0 == insert_merge_after_spec(s.update(c, cut(s[c], start).0), c, cut(s[c], end).1).0);
            assert(forall|a: int| covers(unmap_scan(s, c, start, end, success).0, a) <==> covers(s, a) && !(start <= a < end));
        } else if start <= m.start && end >= m.end {
            lemma_remove_ordered(s, c);
            let t = s.remove(c);
            assert forall|j: int| 0 <= j < c implies (#[trigger] t[j]).end <= start by {
                assert(t[j] == s[j]);
            }
            lemma_unmap_scan_ordered(t, c, start, end, true);
            assert forall|a: int| covers(u.0, a) <==> covers(s, a) && !(start <= a < end) by {
                if covers(s, a) && !(start <= a < end) {
                    let k = choose|k: int| 0 <= k < s.len() && #[trigger] holds(s[k], a);
                    assert(k != c);
                }
                if covers(t, a) {
                    let j = choose|j: int| 0 <= j < s.len() && j != c && #[trigger] holds(s[j], a);
                    assert(holds(s[j], a));
                }
            }
            assert(forall|a: int| covers(unmap_scan(s, c, start, end, success).0, a) <==> covers(s, a) && !(start <= a < end));
        } else if start <= m.start {
            lemma_unmap_begin(s, c, start, end);
            assert(u.0 == s.update(c, trimmed_start(s[c], end)));
            assert(forall|a: int| covers(unmap_scan(s, c, start, end, success).0, a) <==> covers(s, a) && !(start <= a < end));
        } else {
            lemma_unmap_end(s, c, start, end);
            let t = s.update(c, Mapping { end: start as usize, ..m });
            lemma_unmap_scan_ordered(t, c + 1, start, end, true);
            let r = unmap_scan(t, c + 1, start, end, true).0;
            assert(unmap_scan(s, c, start, end, success).0 == r);
            assert forall|a: int| covers(r, a) <==> covers(s, a) && !(start <= a < end) by {
                assert(covers(r, a) <==> covers(t, a) && !(start <= a < end));
                assert(covers(t, a) && !(start <= a < end) <==> covers(s, a) && !(start <= a < end));
            }
        }
    }
}

/// Unmapping page-aligned `start..end` from an ordered list keeps it
/// ordered; what stays covered is exactly what was covered outside the
/// range.
pub proof fn lemma_unmap_keeps_order(s: Seq<Mapping>, start: int, end: int)
    requires
        maps_wf(s),
        unmap_scan_ok(s, 0, start, end),
        0 <= start <= end <= usize::MAX,
    ensures
        maps_wf(unmap_scan(s, 0, start, end, false).0),
        forall|a: int| covers(unmap_scan(s, 0, start, end, false).0, a) <==> covers(s, a) && !(start <= a < end),
{
    lemma_unmap_scan_ordered(s, 0, start, end, false);
}

/// In an ordered list, putting `m` with the cursor past the last mapping
/// (so that it goes first) where it ends before the first mapping keeps the
/// list ordered; the list covers what it covered and what `m` holds.
proof fn lemma_insert_merge_front_ordered(s: Seq<Mapping>, m: Mapping)
    requires
        maps_wf(s),
        m.start < m.end,
        s.len() > 0 ==> m.end <= s[0].start,
    ensures
        maps_wf(insert_merge_after_spec(s, s.len() as int, m).0),
        forall|a: int| covers(insert_merge_after_spec(s, s.len() as int, m).0, a) <==> covers(s, a) || holds(m, a),
{
    let r = insert_merge_after_spec(s, s.len() as int, m).0;
    if s.len() > 0 && merged(s[0], m) is Some {
        let next = s[0];
        let nn = merged(next, m)->0;
        assert(next.start < next.end);
        assert(nn.start == m.start && nn.end == next.end);
        if s.len() > 1 {
            assert(s[0].end <= s[1].start);
        }
        assert(r == s.update(0, nn));
        lemma_update_ordered(s, 0, nn);
        assert forall|a: int| covers(r, a) <==> covers(s, a) || holds(m, a) by {
            if covers(r, a) && !holds(nn, a) {
                let j = choose|j: int| 0 <= j < s.len() && j != 0 && #[trigger] holds(s[j], a);
                assert(holds(s[j], a));
            }
            if holds(nn, a) && a >= next.start {
                assert(holds(s[0], a));
            }
            if covers(s, a) {
                let k = choose|k: int| 0 <= k < s.len() && #[trigger] holds(s[k], a);
                if k != 0 {
                    assert(holds(s.update(0, nn)[k], a));
                } else {
                    assert(holds(nn, a));
                }
            }
            if holds(m, a) {
                assert(holds(nn, a));
            }
        }
    } else {
        assert(r =~= s.insert(0, m));
        lemma_insert_ordered(s, 0, m);
    }
}

/// In an ordered list, a mapping put before cursor `i`, where it fits
/// (after the mapping before `i`, before the one at `i`), keeps the list
/// ordered; the list covers what it covered and what the mapping holds.
pub proof fn lemma_insert_merge_before_ordered(s: Seq<Mapping>, i: int, m: Mapping)
    requires
        maps_wf(s),
        0 <= i <= s.len(),
        m.start < m.end,
        i > 0 ==> s[i - 1].end <= m.start,
        i < s.len() ==> m.end <= s[i].start,
    ensures
        maps_wf(insert_merge_after_spec(s, move_prev(s, i), m).0),
        forall|a: int| covers(insert_merge_after_spec(s, move_prev(s, i), m).0, a) <==> covers(s, a) || holds(m, a),
{
    if i == 0 {
        lemma_insert_merge_front_ordered(s, m);
    } else {
        lemma_insert_merge_after_ordered(s, i - 1, m);
    }
}

/// A mapping `mmap` makes in an ordered list, where the range it finds is
/// as long as the mapping (no address given, a fixed address, or a page
/// aligned length), lies where the list covered nothing (after a fixed
/// mapping cleared its range); the list stays ordered and covers what it
/// covered and the new range.
pub proof fn lemma_mmap_keeps_order(
    s: Seq<Mapping>,
    addr: Option<usize>,
    len: usize,
    prot: u64,
    flags: u64,
    file: Option<MmapFile>,
    offset: usize,
    anon_shared: usize,
    top: usize,
    base: usize,
)
    requires
        maps_wf(s),
        len > 0,
        len + 4096 <= usize::MAX,
        addr matches Some(a) ==> (flags & MAP_FIXED != 0 ==> page_aligned(a as int)
            && a + page_up(len as int) + 4096 <= usize::MAX
            && unmap_scan_ok(s, 0, a as int, page_up(a + page_up(len as int)))),
        addr is Some && flags & MAP_FIXED == 0 ==> page_aligned(len as int),
        mmap_place(mmap_cleared(s, addr, len, flags).0, addr, len, flags, top, base) matches Some((st, i))
            ==> 0 <= st && st + page_up(len as int) <= usize::MAX,
    ensures
        ({
            let cleared = mmap_cleared(s, addr, len, flags).0;
            &&& maps_wf(cleared)
            &&& mmap_place(cleared, addr, len, flags, top, base) matches Some((st, i)) ==> {
                let m = mmap_mapping(st, len, prot, flags, file, offset, anon_shared);
                let after = insert_merge_after_spec(cleared, move_prev(cleared, i), m).0;
                &&& forall|a: int| holds(m, a) ==> !covers(cleared, a)
                &&& maps_wf(after)
                &&& forall|a: int| covers(after, a) <==> covers(cleared, a) || holds(m, a)
            }
        }),
{
    let cleared = mmap_cleared(s, addr, len, flags).0;
    let pl = page_up(len as int);
    assert(pl >= len) by {
        crate::utils::types::lemma_align_down_bounds((len + 4095) as u64, 4096);
    }
    match addr {
        Some(a) => {
            if flags & MAP_FIXED != 0 {
                assert(page_aligned(a + pl)) by {
                    crate::utils::types::lemma_align_down_bounds((len + 4095) as u64, 4096);
                }
                assert(page_up(a + pl) == a + pl) by {
                    crate::utils::types::lemma_align_down_bounds((a + pl + 4095) as u64, 4096);
                }
                lemma_unmap_keeps_order(s, a as int, a + pl);
            }
        },
        None => {},
    }
    if mmap_place(cleared, addr, len, flags, top, base) is Some {
        let (st, i) = mmap_place(cleared, addr, len, flags, top, base)->0;
        let m = mmap_mapping(st, len, prot, flags, file, offset, anon_shared);
        assert(m.start == st && m.end == st + pl);
        let hole_len = match addr {
            Some(a) => if flags & MAP_FIXED != 0 { pl } else { len as int },
            None => pl,
        };
        match addr {
            Some(a) => if flags & MAP_FIXED != 0 {
                lemma_fixed_scan(cleared, a as int, pl);
                assert forall|j: int| 0 <= j < i implies (#[trigger] cleared[j]).end <= st by {
                    assert(cleared[j].start < st);
                    assert(!(cleared[j].start <= a && a < cleared[j].end));
                }
                assert forall|j: int| i <= j < cleared.len() implies st + pl <= (#[trigger] cleared[j]).start by {
                    assert(cleared[j].start >= st);
                    assert(!(a <= cleared[j].start && cleared[j].start < a + pl));
                }
            } else {
                assert(pl == len) by {
                    crate::utils::types::lemma_align_down_bounds((len + 4095) as u64, 4096);
                }
                lemma_hole_is_free(cleared, a as int, len as int, top as int);
            },
            None => {
                lemma_hole_is_free(cleared, base as int, pl, top as int);
            },
        }
        assert(pl > 0) by {
            crate::utils::types::lemma_align_down_bounds((len + 4095) as u64, 4096);
        }
        lemma_insert_merge_before_ordered(cleared, i, m);
        assert forall|x: int| holds(m, x) implies !covers(cleared, x) by {
            if covers(cleared, x) {
                let k = choose|k: int| 0 <= k < cleared.len() && #[trigger] holds(cleared[k], x);
                if k < i {
                    assert(cleared[k].end <= st);
                } else {
                    assert(st + pl <= cleared[k].start);
                }
            }
        }
    }
}

/// Joining mappings `i` and `i + 1` of an ordered list, which touch, into
/// `x`, which spans both, keeps the list ordered and what it covers.
proof fn lemma_join_ordered(s: Seq<Mapping>, i: int, x: Mapping)
    requires
        maps_wf(s),
        0 <= i,
        i + 1 < s.len(),
        s[i].end == s[i + 1].start,
        x.start == s[i].start,
        x.end == s[i + 1].end,
    ensures
        maps_wf(s.update(i, x).remove(i + 1)),
        forall|a: int| covers(s.update(i, x).remove(i + 1), a) <==> covers(s, a),
{
    let t = s.remove(i + 1);
    lemma_remove_ordered(s, i + 1);
    assert(s[i].start < s[i].end && s[i + 1].start < s[i + 1].end);
    if i > 0 {
        assert(t[i - 1] == s[i - 1]);
        assert(s[i - 1].end <= s[i].start);
    }
    if i + 1 < t.len() {
        assert(t[i + 1] == s[i + 2]);
        assert(s[i + 1].end <= s[i + 2].start);
    }
    assert(t[i] == s[i]);
    lemma_update_ordered(t, i, x);
    assert(s.update(i, x).remove(i + 1) =~= t.update(i, x));
    assert forall|a: int| covers(t.update(i, x), a) <==> covers(s, a) by {
        if covers(t.update(i, x), a) && !holds(x, a) {
            let j = choose|j: int| 0 <= j < t.len() && j != i && #[trigger] holds(t[j], a);
            if j < i + 1 {
                assert(holds(s[j], a));
            } else {
                assert(holds(s[j + 1], a));
            }
        }
        if holds(x, a) {
            if a < s[i].end {
                assert(holds(s[i], a));
            } else {
                assert(holds(s[i + 1], a));
            }
        }
        if covers(s, a) {
            let k = choose|k: int| 0 <= k < s.len() && #[trigger] holds(s[k], a);
            if k == i || k == i + 1 {
                assert(holds(x, a));
            } else if k < i {
                assert(holds(t.update(i, x)[k], a));
            } else {
                assert(holds(t.update(i, x)[k - 1], a));
            }
        }
    }
}

/// `merge_prev_next` on an ordered list keeps it ordered and what it
/// covers.
#[verifier::spinoff_prover]
#[verifier::rlimit(40)]
pub proof fn lemma_merge_prev_next_ordered(s: Seq<Mapping>, c: int)
    requires
        maps_wf(s),
        0 <= c < s.len(),
    ensures
        maps_wf(merge_prev_next_spec(s, c).0),
        forall|a: int| covers(merge_prev_next_spec(s, c).0, a) <==> covers(s, a),
{
    let cur = s[c];
    assert(cur.start < cur.end);
    let (s1, c1) = merge_prev_step(s, c);
    if c > 0 && merged(cur, s[c - 1]) is Some {
        let prev = s[c - 1];
        let mm = merged(cur, prev)->0;
        assert(prev.start < prev.end);
        assert(prev.end <= cur.start);
        assert(mm.start == prev.start && mm.end == cur.end);
        assert(s1 =~= s.update(c - 1, mm).remove(c));
        assert(c1 == c - 1);
        lemma_join_ordered(s, c - 1, mm);
    } else {
        assert(s1 =~= s);
        assert(c1 == c);
    }
    assert(0 <= c1 < s1.len());
    let cur2 = s1[c1];
    assert(cur2.start < cur2.end);
    let r = merge_next_step(s1, c1).0;
    if c1 + 1 < s1.len() && merged(cur2, s1[c1 + 1]) is Some {
        let next = s1[c1 + 1];
        let yy = merged(cur2, next)->0;
        assert(next.start < next.end);
        assert(cur2.end <= next.start);
        assert(yy.start == cur2.start && yy.end == next.end);
        assert(r =~= s1.update(c1, yy).remove(c1 + 1));
        lemma_join_ordered(s1, c1, yy);
    } else {
        assert(r =~= s1);
    }
}

/// Where `m` merges neither into the mapping at `c` nor with the next one,
/// `insert_merge_after` inserts it right after `c` and leaves the cursor on
/// it.
proof fn lemma_insert_merge_after_plain(s: Seq<Mapping>, c: int, m: Mapping)
    requires
        0 <= c < s.len(),
        merged(m, s[c]) is None,
        c + 1 < s.len() ==> merged(s[c + 1], m) is None,
    ensures
        insert_merge_after_spec(s, c, m) == (s.insert(c + 1, m), c + 1),
{
    if c + 1 < s.len() {
        assert(insert_merge_after_spec(s, c, m).0 =~= s.insert(c + 1, m));
    } else {
        assert(s.push(m) =~= s.insert(c + 1, m));
    }
}

/// Changing protection on an ordered list, from cursor `c` on, keeps it
/// ordered and what it covers.
#[verifier::spinoff_prover]
proof fn lemma_mprotect_scan_ordered(s: Seq<Mapping>, c: int, start: int, end: int, prot: u64)
    requires
        maps_wf(s),
        0 <= c <= s.len(),
        mprotect_scan_ok(s, c, start, end, prot),
        0 <= start <= end <= usize::MAX,
    ensures
        maps_wf(mprotect_scan(s, c, start, end, prot).0),
        forall|a: int| covers(mprotect_scan(s, c, start, end, prot).0, a) <==> covers(s, a),
    decreases s.len() - c,
{
    if c >= s.len() {
    } else if s[c].end <= start {
        lemma_mprotect_scan_ordered(s, c + 1, start, end, prot);
    } else {
        let m = s[c];
        assert(m.start < m.end);
        if c > 0 {
            assert(s[c - 1].end <= m.start);
        }
        if c + 1 < s.len() {
            assert(m.end <= s[c + 1].start);
        }
        if mprotect_refused(m, prot) {
        } else if m.prot == prot {
            let (s2, c2) = merge_prev_next_spec(s, c);
            lemma_merge_prev_next_progress(s, c);
            lemma_merge_prev_next_ordered(s, c);
            lemma_mprotect_scan_ordered(s2, crate::task::vm::move_next(s2, c2), start, end, prot);
            let r = mprotect_scan(s2, crate::task::vm::move_next(s2, c2), start, end, prot).0;
            assert(mprotect_scan(s, c, start, end, prot).0 == r);
            assert forall|a: int| covers(r, a) <==> covers(s, a) by {
                assert(covers(r, a) <==> covers(s2, a));
                assert(covers(s2, a) <==> covers(s, a));
            }
        } else if end <= m.start || start >= m.end {
        } else if start > m.start && end < m.end {
            lemma_mprotect_mid(s, c, start, end, prot);
        } else if start <= m.start && end >= m.end {
            let x = Mapping { prot, ..m };
            lemma_update_ordered(s, c, x);
            let s1 = s.update(c, x);
            assert forall|a: int| covers(s1, a) <==> covers(s, a) by {
                if covers(s, a) {
                    let k = choose|k: int| 0 <= k < s.len() && #[trigger] holds(s[k], a);
                    assert(holds(s1[k], a));
                }
                if covers(s1, a) && !holds(x, a) {
                    let j = choose|j: int| 0 <= j < s.len() && j != c && #[trigger] holds(s[j], a);
                    assert(holds(s[j], a));
                }
                if holds(x, a) {
                    assert(holds(s[c], a));
                }
            }
            let (s2, c2) = merge_prev_next_spec(s1, c);
            lemma_merge_prev_next_progress(s1, c);
            lemma_merge_prev_next_ordered(s1, c);
            lemma_mprotect_scan_ordered(s2, crate::task::vm::move_next(s2, c2), start, end, prot);
            let r = mprotect_scan(s2, crate::task::vm::move_next(s2, c2), start, end, prot).0;
            assert(mprotect_scan(s, c, start, end, prot).0 == r);
            assert forall|a: int| covers(r, a) <==> covers(s, a) by {
                assert(covers(r, a) <==> covers(s2, a));
                assert(covers(s2, a) <==> covers(s1, a));
            }
        } else if start <= m.start {
            lemma_mprotect_begin(s, c, start, end, prot);
        } else {
            lemma_mprotect_end(s, c, start, end, prot);
            let x = Mapping { prot, ..cut(m, start).1 };
            let s1 = s.update(c, cut(m, start).0);
            let (s2, c2) = insert_merge_after_spec(s1, c, x);
            lemma_insert_merge_after_progress(s1, c, x);
            lemma_mprotect_scan_ordered(s2, crate::task::vm::move_next(s2, c2), start, end, prot);
            let r = mprotect_scan(s2, crate::task::vm::move_next(s2, c2), start, end, prot).0;
            assert(mprotect_scan(s, c, start, end, prot).0 == r);
            assert forall|a: int| covers(r, a) <==> covers(s, a) by {
                assert(covers(r, a) <==> covers(s2, a));
                assert(covers(s2, a) <==> covers(s, a));
            }
        }
    }
}

/// Splitting mapping `c` into two parts that touch, the first `left` in
/// its place, the second `right` put after it, keeps an ordered list
/// ordered and what it covers.
proof fn lemma_split_in_place(s: Seq<Mapping>, c: int, left: Mapping, right: Mapping)
    requires
        maps_wf(s),
        0 <= c < s.len(),
        left.start == s[c].start,
        left.start < left.end,
        left.end == right.start,
        right.start < right.end,
        right.end == s[c].end,
    ensures
        maps_wf(insert_merge_after_spec(s.update(c, left), c, right).0),
        forall|a: int| covers(insert_merge_after_spec(s.update(c, left), c, right).0, a) <==> covers(s, a),
{
    let m = s[c];
    if c > 0 {
        assert(s[c - 1].end <= m.start);
    }
    if c + 1 < s.len() {
        assert(m.end <= s[c + 1].start);
    }
    lemma_update_ordered(s, c, left);
    let kept = s.update(c, left);
    lemma_insert_merge_after_ordered(kept, c, right);
    let r = insert_merge_after_spec(kept, c, right).0;
    assert forall|a: int| covers(r, a) <==> covers(s, a) by {
        if covers(s, a) {
            let k = choose|k: int| 0 <= k < s.len() && #[trigger] holds(s[k], a);
            if k != c {
                assert(holds(kept[k], a));
            } else if a < left.end {
                assert(holds(kept[c], a));
            } else {
                assert(holds(right, a));
            }
        }
        if covers(kept, a) {
            if holds(left, a) {
                assert(holds(s[c], a));
            } else {
                let j = choose|j: int| 0 <= j < s.len() && j != c && #[trigger] holds(s[j], a);
                assert(holds(s[j], a));
            }
        }
        if holds(right, a) {
            assert(holds(s[c], a));
        }
    }
}

/// The middle case of changing protection keeps the list ordered and what
/// it covers.
proof fn lemma_mprotect_mid(s: Seq<Mapping>, c: int, start: int, end: int, prot: u64)
    requires
        maps_wf(s),
        0 <= c < s.len(),
        s[c].start < start < end < s[c].end,
        s[c].prot != prot,
        end <= usize::MAX,
    ensures
        ({
            let m = s[c];
            let rest = cut(m, start).1;
            let (s2, c2) = insert_merge_after_spec(s.update(c, cut(m, start).0), c, Mapping { prot, ..cut(rest, end).0 });
            let r = insert_merge_after_spec(s2, c2, cut(rest, end).1).0;
            maps_wf(r) && forall|a: int| covers(r, a) <==> covers(s, a)
        }),
{
    let m = s[c];
    let left = cut(m, start).0;
    let rest = cut(m, start).1;
    let mid = Mapping { prot, ..cut(rest, end).0 };
    let right = cut(rest, end).1;
    assert(left.start == m.start && left.end == start && left.prot == m.prot);
    assert(mid.start == start && mid.end == end);
    assert(right.start == end && right.end == m.end);
    if c > 0 {
        assert(s[c - 1].end <= m.start);
    }
    if c + 1 < s.len() {
        assert(m.end <= s[c + 1].start);
        assert(s[c + 1].start < s[c + 1].end);
    }
    let kept = s.update(c, left);
    lemma_update_ordered(s, c, left);
    lemma_insert_merge_after_plain(kept, c, mid);
    let s2 = kept.insert(c + 1, mid);
    lemma_insert_ordered(kept, c + 1, mid);
    lemma_insert_merge_after_ordered(s2, c + 1, right);
    let r = insert_merge_after_spec(s2, c + 1, right).0;
    assert forall|a: int| covers(r, a) <==> covers(s, a) by {
        if covers(s, a) {
            let k = choose|k: int| 0 <= k < s.len() && #[trigger] holds(s[k], a);
            if k != c {
                assert(holds(kept[k], a));
            } else if a < start {
                assert(holds(kept[c], a));
            } else if a < end {
                assert(holds(mid, a));
            } else {
                assert(holds(right, a));
            }
        }
        if covers(kept, a) {
            if holds(left, a) {
                assert(holds(s[c], a));
            } else {
                let j = choose|j: int| 0 <= j < s.len() && j != c && #[trigger] holds(s[j], a);
                assert(holds(s[j], a));
            }
        }
        if holds(mid, a) || holds(right, a) {
            assert(holds(s[c], a));
        }
    }
}

/// The case of changing protection where the range ends inside the mapping
/// keeps the list ordered and what it covers.
proof fn lemma_mprotect_begin(s: Seq<Mapping>, c: int, start: int, end: int, prot: u64)
    requires
        maps_wf(s),
        0 <= c < s.len(),
        start <= s[c].start < end < s[c].end,
        end <= usize::MAX,
    ensures
        ({
            let p = Mapping { prot, ..s[c] };
            let r = insert_merge_after_spec(s.update(c, cut(p, end).0), c, cut(p, end).1).0;
            maps_wf(r) && forall|a: int| covers(r, a) <==> covers(s, a)
        }),
{
    let p = Mapping { prot, ..s[c] };
    lemma_split_in_place(s, c, cut(p, end).0, cut(p, end).1);
}

/// The case of changing protection where the range starts inside the
/// mapping and reaches its end keeps the list ordered and what it covers.
proof fn lemma_mprotect_end(s: Seq<Mapping>, c: int, start: int, end: int, prot: u64)
    requires
        maps_wf(s),
        0 <= c < s.len(),
        s[c].start < start < s[c].end <= end,
        end <= usize::MAX,
    ensures
        ({
            let m = s[c];
            let r = insert_merge_after_spec(s.update(c, cut(m, start).0), c, Mapping { prot, ..cut(m, start).1 }).0;
            maps_wf(r) && forall|a: int| covers(r, a) <==> covers(s, a)
        }),
{
    let m = s[c];
    lemma_split_in_place(s, c, cut(m, start).0, Mapping { prot, ..cut(m, start).1 });
}

/// Changing the protection of page-aligned `start..end` keeps an ordered
/// list ordered and covering the same addresses.
pub proof fn lemma_mprotect_keeps_order(s: Seq<Mapping>, start: int, end: int, prot: u64)
    requires
        maps_wf(s),
        mprotect_scan_ok(s, 0, start, end, prot),
        0 <= start <= end <= usize::MAX,
    ensures
        maps_wf(mprotect_scan(s, 0, start, end, prot).0),
        forall|a: int| covers(mprotect_scan(s, 0, start, end, prot).0, a) <==> covers(s, a),
{
    lemma_mprotect_scan_ordered(s, 0, start, end, prot);
}

} // verus!

//! Property-level comparison of a live object with an exported file.
use vstd::prelude::*;
use crate::json::{
    Json, JsonV, items_eq, json_eq, lemma_json_eq_refl, lemma_json_eq_sym, lemma_seq_lt_irreflexive, lemma_seq_lt_total, opt_view,
};
use crate::text::{
    chars_eq, chars_of, decimal, decimal_chars, extend_chars, occurs_at, occurs_at_exec, seq_lt, seq_lt_exec, string_from,
};

verus! {

/// How a property differs between the live object and the file.
#[derive(Debug, Clone, Copy, PartialEq, Eq, Structural)]
pub enum ChangeKind {
    /// Only the file (right side) has it.
    Added,
    /// Only the live object (left side) has it.
    Removed,
    /// Both have it, with different values.
    Changed,
}

/// One differing property.
pub struct Difference {
    pub path: String,
    pub kind: ChangeKind,
    /// Value in the live Intune object (left side).
    pub left: Option<Json>,
    /// Value in the exported file (right side).
    pub right: Option<Json>,
}

/// The mathematical value of a [`Difference`].
pub struct DifferenceV {
    pub path: Seq<char>,
    pub kind: ChangeKind,
    pub left: Option<JsonV>,
    pub right: Option<JsonV>,
}

impl View for Difference {
    type V = DifferenceV;

    open spec fn view(&self) -> DifferenceV {
        DifferenceV { path: self.path@, kind: self.kind, left: opt_view(self.left), right: opt_view(self.right) }
    }
}

/// The outcome of a comparison.
pub struct CompareResult {
    pub identical: bool,
    pub added: usize,
    pub removed: usize,
    pub changed: usize,
    pub differences: Vec<Difference>,
}

/// The views of a sequence of differences.
pub open spec fn dviews(s: Seq<Difference>) -> Seq<DifferenceV> {
    s.map_values(|d: Difference| d@)
}

// ---- The specification of the diff ------------------------------------------

/// The last `.`-separated segment of a path.
pub open spec fn last_segment(p: Seq<char>) -> Seq<char>
    decreases p.len(),
{
    if p.len() == 0 {
        p
    } else if p.last() == '.' {
        Seq::empty()
    } else {
        last_segment(p.drop_last()).push(p.last())
    }
}

/// Keys expected to differ between a live object and an export (server
/// timestamps, ids, versions).
pub open spec fn ignored_word(w: Seq<char>) -> bool {
    ||| w == "id"@
    ||| w == "createdDateTime"@
    ||| w == "lastModifiedDateTime"@
    ||| w == "version"@
    ||| w == "@odata.context"@
    ||| w == "supportsScopeTags"@
    ||| w == "isAssigned"@
    ||| w == "assignments"@
}

/// Whether the last member key of a path is `@odata.context`: the path is
/// that key, or ends with `.` and that key.
pub open spec fn context_key(p: Seq<char>) -> bool {
    p == "@odata.context"@ || (p.len() > "@odata.context"@.len() && occurs_at(
        p,
        seq!['.'] + "@odata.context"@,
        p.len() - "@odata.context"@.len() - 1,
    ))
}

/// A path that comparison skips: its last `.`-separated segment is one of
/// the ignored keys, or its last member key is `@odata.context`.
pub open spec fn is_ignored(p: Seq<char>) -> bool {
    ignored_word(last_segment(p)) || context_key(p)
}

/// The path of member `k` under `path`.
pub open spec fn key_path(path: Seq<char>, k: Seq<char>) -> Seq<char> {
    if path.len() == 0 {
        k
    } else {
        path + seq!['.'] + k
    }
}

/// The path of item `i` under `path`.
pub open spec fn index_path(path: Seq<char>, i: nat) -> Seq<char> {
    path + seq!['['] + decimal(i) + seq![']']
}

/// A property present only on the left, unless its path is ignored.
pub open spec fn removed_member(p: Seq<char>, v: JsonV) -> Seq<DifferenceV> {
    if is_ignored(p) {
        Seq::empty()
    } else {
        seq![DifferenceV { path: p, kind: ChangeKind::Removed, left: Some(v), right: None }]
    }
}

/// A property present only on the right, unless its path is ignored.
pub open spec fn added_member(p: Seq<char>, v: JsonV) -> Seq<DifferenceV> {
    if is_ignored(p) {
        Seq::empty()
    } else {
        seq![DifferenceV { path: p, kind: ChangeKind::Added, left: None, right: Some(v) }]
    }
}

/// The differences between `l` and `r` found under `path`: objects are
/// compared member by member in key order, unequal arrays item by item, and
/// anything else as a whole.
pub open spec fn diff(path: Seq<char>, l: JsonV, r: JsonV) -> Seq<DifferenceV>
    decreases l, r, 0nat,
{
    if is_ignored(path) {
        Seq::empty()
    } else {
        match (l, r) {
            (JsonV::Object(lk, lv), JsonV::Object(rk, rv)) => diff_members(path, lk, lv, rk, rv),
            (JsonV::Array(la), JsonV::Array(ra)) => {
                if items_eq(la, ra) {
                    Seq::empty()
                } else {
                    diff_items(path, la, ra, if la.len() >= ra.len() { la.len() } else { ra.len() })
                }
            },
            _ => {
                if json_eq(l, r) {
                    Seq::empty()
                } else {
                    seq![DifferenceV { path: path, kind: ChangeKind::Changed, left: Some(l), right: Some(r) }]
                }
            },
        }
    }
}

/// The differences between the members of two objects, merged in key order.
pub open spec fn diff_members(
    path: Seq<char>,
    lk: Seq<Seq<char>>,
    lv: Seq<JsonV>,
    rk: Seq<Seq<char>>,
    rv: Seq<JsonV>,
) -> Seq<DifferenceV>
    decreases lv, rv, 0nat,
{
    if lv.len() == 0 && rv.len() == 0 {
        Seq::empty()
    } else if rv.len() == 0 || (lv.len() > 0 && seq_lt(lk[0], rk[0])) {
        removed_member(key_path(path, lk[0]), lv[0]) + diff_members(
            path,
            lk.subrange(1, lk.len() as int),
            lv.subrange(1, lv.len() as int),
            rk,
            rv,
        )
    } else if lv.len() == 0 || seq_lt(rk[0], lk[0]) {
        added_member(key_path(path, rk[0]), rv[0]) + diff_members(
            path,
            lk,
            lv,
            rk.subrange(1, rk.len() as int),
            rv.subrange(1, rv.len() as int),
        )
    } else {
        diff(key_path(path, lk[0]), lv[0], rv[0]) + diff_members(
            path,
            lk.subrange(1, lk.len() as int),
            lv.subrange(1, lv.len() as int),
            rk.subrange(1, rk.len() as int),
            rv.subrange(1, rv.len() as int),
        )
    }
}

/// The differences between the first `n` positions of two arrays.
pub open spec fn diff_items(path: Seq<char>, la: Seq<JsonV>, ra: Seq<JsonV>, n: nat) -> Seq<DifferenceV>
    decreases la, ra, n,
{
    if n == 0 {
        Seq::empty()
    } else {
        let i = (n - 1) as nat;
        let p = index_path(path, i);
        diff_items(path, la, ra, i) + if i < la.len() && i < ra.len() {
            diff(p, la[i as int], ra[i as int])
        } else if i < la.len() {
            seq![DifferenceV { path: p, kind: ChangeKind::Removed, left: Some(la[i as int]), right: None }]
        } else if i < ra.len() {
            seq![DifferenceV { path: p, kind: ChangeKind::Added, left: None, right: Some(ra[i as int]) }]
        } else {
            Seq::empty()
        }
    }
}

/// How many differences are of kind `k`.
pub open spec fn count_kind(ds: Seq<DifferenceV>, k: ChangeKind) -> nat
    decreases ds.len(),
{
    if ds.len() == 0 {
        0
    } else {
        count_kind(ds.drop_last(), k) + if ds.last().kind == k { 1nat } else { 0nat }
    }
}

// ---- Implementation -----------------------------------------------------------

/// Whether the last segment of `w` is an ignored key.
fn is_ignored_word_exec(w: &Vec<char>) -> (r: bool)
    ensures
        r == ignored_word(w@),
{
    chars_eq(w, &chars_of("id")) || chars_eq(w, &chars_of("createdDateTime")) || chars_eq(
        w,
        &chars_of("lastModifiedDateTime"),
    ) || chars_eq(w, &chars_of("version")) || chars_eq(w, &chars_of("@odata.context")) || chars_eq(
        w,
        &chars_of("supportsScopeTags"),
    ) || chars_eq(w, &chars_of("isAssigned")) || chars_eq(w, &chars_of("assignments"))
}

/// The last `.`-separated segment of `p`.
fn last_segment_exec(p: &Vec<char>) -> (r: Vec<char>)
    ensures
        r@ == last_segment(p@),
{
    let mut n: usize = p.len();
    let mut seg: Vec<char> = Vec::new();
    assert(p@.subrange(0, p@.len() as int) =~= p@);
    assert(last_segment(p@) + seg@ =~= last_segment(p@));
    while n > 0 && p[n - 1] != '.'
        invariant
            n <= p@.len(),
            last_segment(p@) == last_segment(p@.subrange(0, n as int)) + seg@,
        decreases n,
    {
        proof {
            assert(p@.subrange(0, n as int).drop_last() =~= p@.subrange(0, n - 1));
        }
        let ghost before = seg@;
        let mut next: Vec<char> = Vec::new();
        next.push(p[n - 1]);
        extend_chars(&mut next, &seg);
        seg = next;
        assert(last_segment(p@.subrange(0, n as int)) =~= last_segment(p@.subrange(0, n - 1)).push(p@[n - 1]));
        assert(last_segment(p@.subrange(0, n - 1)).push(p@[n - 1]) + before =~= last_segment(p@.subrange(0, n - 1)) + seg@);
        n = n - 1;
    }
    proof {
        assert(p@.subrange(0, p@.len() as int) =~= p@);
        assert(last_segment(p@.subrange(0, n as int)) =~= Seq::<char>::empty());
        assert(Seq::<char>::empty() + seg@ =~= seg@);
    }
    seg
}

/// Whether comparison skips the property at `p`.
pub fn is_ignored_exec(p: &Vec<char>) -> (r: bool)
    ensures
        r == is_ignored(p@),
{
    let seg = last_segment_exec(p);
    if is_ignored_word_exec(&seg) {
        return true;
    }
    let ctx = chars_of("@odata.context");
    if chars_eq(p, &ctx) {
        return true;
    }
    if p.len() > ctx.len() {
        let mut dotted: Vec<char> = Vec::new();
        dotted.push('.');
        extend_chars(&mut dotted, &ctx);
        assert(dotted@ == seq!['.'] + ctx@);
        occurs_at_exec(p, &dotted, p.len() - ctx.len() - 1)
    } else {
        false
    }
}

/// The path of member `k` under `path`.
fn key_path_exec(path: &Vec<char>, k: &Vec<char>) -> (r: Vec<char>)
    ensures
        r@ == key_path(path@, k@),
{
    if path.len() == 0 {
        let mut r: Vec<char> = Vec::new();
        extend_chars(&mut r, k);
        assert(r@ =~= k@);
        r
    } else {
        let mut r: Vec<char> = Vec::new();
        extend_chars(&mut r, path);
        r.push('.');
        extend_chars(&mut r, k);
        assert(r@ =~= path@ + seq!['.'] + k@);
        r
    }
}

/// The path of item `i` under `path`.
fn index_path_exec(path: &Vec<char>, i: usize) -> (r: Vec<char>)
    ensures
        r@ == index_path(path@, i as nat),
{
    let mut r: Vec<char> = Vec::new();
    extend_chars(&mut r, path);
    r.push('[');
    let d = decimal_chars(i as u64);
    extend_chars(&mut r, &d);
    r.push(']');
    assert(r@ =~= path@ + seq!['['] + decimal(i as nat) + seq![']']);
    r
}

fn push_difference(out: &mut Vec<Difference>, path: &Vec<char>, kind: ChangeKind, left: Option<Json>, right: Option<Json>)
    ensures
        dviews(final(out)@) == dviews(old(out)@).push(
            DifferenceV { path: path@, kind: kind, left: opt_view(left), right: opt_view(right) },
        ),
{
    let d = Difference { path: string_from(path), kind, left, right };
    out.push(d);
    assert(dviews(out@) =~= dviews(old(out)@).push(d@));
}

/// Appends to `out` the differences between `left` and `right` under `path`.
#[verifier::loop_isolation(false)]
#[verifier::spinoff_prover]
#[verifier::rlimit(40)]
fn diff_value(path: &Vec<char>, left: &Json, right: &Json, out: &mut Vec<Difference>)
    ensures
        dviews(final(out)@) == dviews(old(out)@) + diff(path@, left@, right@),
    decreases left, right,
{
    if is_ignored_exec(path) {
        assert(dviews(out@) =~= dviews(old(out)@) + diff(path@, left@, right@));
        return;
    }
    match (left, right) {
        (Json::Object(le), Json::Object(re)) => {
            let ghost lk = left@->Object_0;
            let ghost lv = left@->Object_1;
            let ghost rk = right@->Object_0;
            let ghost rv = right@->Object_1;
            assert(forall|x: int| 0 <= x < le@.len() ==> lk[x] == (#[trigger] le@[x]).0@ && lv[x] == le@[x].1@);
            assert(forall|x: int| 0 <= x < re@.len() ==> rk[x] == (#[trigger] re@[x]).0@ && rv[x] == re@[x].1@);
            let mut i: usize = 0;
            let mut j: usize = 0;
            assert(lk.subrange(0, lk.len() as int) =~= lk);
            assert(lv.subrange(0, lv.len() as int) =~= lv);
            assert(rk.subrange(0, rk.len() as int) =~= rk);
            assert(rv.subrange(0, rv.len() as int) =~= rv);
            assert(dviews(out@) + diff(path@, left@, right@) =~= dviews(old(out)@) + diff(path@, left@, right@));
            while i < le.len() || j < re.len()
                invariant
                    i <= le@.len(),
                    j <= re@.len(),
                    lk.len() == le@.len(),
                    lv.len() == le@.len(),
                    rk.len() == re@.len(),
                    rv.len() == re@.len(),
                    !is_ignored(path@),
                    dviews(out@) + diff_members(
                        path@,
                        lk.subrange(i as int, lk.len() as int),
                        lv.subrange(i as int, lv.len() as int),
                        rk.subrange(j as int, rk.len() as int),
                        rv.subrange(j as int, rv.len() as int),
                    ) == dviews(old(out)@) + diff(path@, left@, right@),
                decreases le@.len() + re@.len() - i - j,
            {
                let ghost slk = lk.subrange(i as int, lk.len() as int);
                let ghost slv = lv.subrange(i as int, lv.len() as int);
                let ghost srk = rk.subrange(j as int, rk.len() as int);
                let ghost srv = rv.subrange(j as int, rv.len() as int);
                let ghost before = dviews(out@);
                proof {
                    if i < le@.len() {
                        assert(slk.subrange(1, slk.len() as int) =~= lk.subrange(i + 1, lk.len() as int));
                        assert(slv.subrange(1, slv.len() as int) =~= lv.subrange(i + 1, lv.len() as int));
                    }
                    if j < re@.len() {
                        assert(srk.subrange(1, srk.len() as int) =~= rk.subrange(j + 1, rk.len() as int));
                        assert(srv.subrange(1, srv.len() as int) =~= rv.subrange(j + 1, rv.len() as int));
                    }
                }
                let mut take_left = false;
                let mut take_right = false;
                if j == re.len() {
                    take_left = true;
                } else if i == le.len() {
                    take_right = true;
                } else {
                    let lkey = chars_of(le[i].0.as_str());
                    let rkey = chars_of(re[j].0.as_str());
                    if seq_lt_exec(&lkey, &rkey) {
                        take_left = true;
                    } else if seq_lt_exec(&rkey, &lkey) {
                        take_right = true;
                    }
                }
                if take_left {
                    let lkey = chars_of(le[i].0.as_str());
                    let child = key_path_exec(path, &lkey);
                    if !is_ignored_exec(&child) {
                        let v = le[i].1.deep_clone();
                        push_difference(out, &child, ChangeKind::Removed, Some(v), None);
                    }
                    i = i + 1;
                    assert(dviews(out@) + diff_members(
                        path@,
                        lk.subrange(i as int, lk.len() as int),
                        lv.subrange(i as int, lv.len() as int),
                        rk.subrange(j as int, rk.len() as int),
                        rv.subrange(j as int, rv.len() as int),
                    ) =~= before + diff_members(path@, slk, slv, srk, srv));
                } else if take_right {
                    let rkey = chars_of(re[j].0.as_str());
                    let child = key_path_exec(path, &rkey);
                    if !is_ignored_exec(&child) {
                        let v = re[j].1.deep_clone();
                        push_difference(out, &child, ChangeKind::Added, None, Some(v));
                    }
                    j = j + 1;
                    assert(dviews(out@) + diff_members(
                        path@,
                        lk.subrange(i as int, lk.len() as int),
                        lv.subrange(i as int, lv.len() as int),
                        rk.subrange(j as int, rk.len() as int),
                        rv.subrange(j as int, rv.len() as int),
                    ) =~= before + diff_members(path@, slk, slv, srk, srv));
                } else {
                    let lkey = chars_of(le[i].0.as_str());
                    let child = key_path_exec(path, &lkey);
                    proof {
                        assert(decreases_to!(*left => le@[i as int].1));
                    }
                    diff_value(&child, &le[i].1, &re[j].1, out);
                    i = i + 1;
                    j = j + 1;
                    assert(dviews(out@) + diff_members(
                        path@,
                        lk.subrange(i as int, lk.len() as int),
                        lv.subrange(i as int, lv.len() as int),
                        rk.subrange(j as int, rk.len() as int),
                        rv.subrange(j as int, rv.len() as int),
                    ) =~= before + diff_members(path@, slk, slv, srk, srv));
                }
            }
            assert(diff_members(
                path@,
                lk.subrange(i as int, lk.len() as int),
                lv.subrange(i as int, lv.len() as int),
                rk.subrange(j as int, rk.len() as int),
                rv.subrange(j as int, rv.len() as int),
            ) =~= Seq::<DifferenceV>::empty());
            assert(dviews(out@) =~= dviews(old(out)@) + diff(path@, left@, right@));
        },
        (Json::Array(la), Json::Array(ra)) => {
            let ghost lav = left@->Array_0;
            let ghost rav = right@->Array_0;
            assert(forall|x: int| 0 <= x < la@.len() ==> lav[x] == (#[trigger] la@[x])@);
            assert(forall|x: int| 0 <= x < ra@.len() ==> rav[x] == (#[trigger] ra@[x])@);
            if left.equals(right) {
                assert(dviews(out@) =~= dviews(old(out)@) + diff(path@, left@, right@));
                return;
            }
            let max: usize = if la.len() >= ra.len() { la.len() } else { ra.len() };
            let mut i: usize = 0;
            assert(dviews(out@) =~= dviews(old(out)@) + diff_items(path@, lav, rav, 0));
            while i < max
                invariant
                    i <= max,
                    max == (if lav.len() >= rav.len() { lav.len() } else { rav.len() }),
                    lav.len() == la@.len(),
                    rav.len() == ra@.len(),
                    dviews(out@) == dviews(old(out)@) + diff_items(path@, lav, rav, i as nat),
                decreases max - i,
            {
                let child = index_path_exec(path, i);
                let ghost before = dviews(out@);
                if i < la.len() && i < ra.len() {
                    proof {
                        assert(decreases_to!(*left => la@[i as int]));
                    }
                    diff_value(&child, &la[i], &ra[i], out);
                } else if i < la.len() {
                    let v = la[i].deep_clone();
                    push_difference(out, &child, ChangeKind::Removed, Some(v), None);
                } else {
                    let v = ra[i].deep_clone();
                    push_difference(out, &child, ChangeKind::Added, None, Some(v));
                }
                i = i + 1;
                assert(dviews(out@) =~= dviews(old(out)@) + diff_items(path@, lav, rav, i as nat));
            }
            assert(dviews(out@) =~= dviews(old(out)@) + diff(path@, left@, right@));
        },
        _ => {
            if !left.equals(right) {
                let l = left.deep_clone();
                let r = right.deep_clone();
                push_difference(out, path, ChangeKind::Changed, Some(l), Some(r));
            }
            assert(dviews(out@) =~= dviews(old(out)@) + diff(path@, left@, right@));
        },
    }
}

/// How many of `ds` are of kind `k`.
fn count_kind_exec(ds: &Vec<Difference>, k: ChangeKind) -> (n: usize)
    ensures
        n == count_kind(dviews(ds@), k),
{
    let mut n: usize = 0;
    let mut i: usize = 0;
    while i < ds.len()
        invariant
            i <= ds@.len(),
            n <= i,
            n == count_kind(dviews(ds@.subrange(0, i as int)), k),
        decreases ds@.len() - i,
    {
        assert(dviews(ds@.subrange(0, i + 1)).drop_last() =~= dviews(ds@.subrange(0, i as int)));
        if ds[i].kind == k {
            n = n + 1;
        }
        i = i + 1;
    }
    assert(ds@.subrange(0, ds@.len() as int) =~= ds@);
    n
}

/// Produce a property-level diff between a live Intune object (`left`) and an
/// exported file (`right`). Nested objects and arrays are compared recursively.
pub fn compare(left: &Json, right: &Json) -> (r: CompareResult)
    ensures
        dviews(r.differences@) == diff(Seq::empty(), left@, right@),
        r.identical == (r.differences@.len() == 0),
        r.added == count_kind(dviews(r.differences@), ChangeKind::Added),
        r.removed == count_kind(dviews(r.differences@), ChangeKind::Removed),
        r.changed == count_kind(dviews(r.differences@), ChangeKind::Changed),
        r.added + r.removed + r.changed == r.differences@.len(),
{
    let mut diffs: Vec<Difference> = Vec::new();
    let root: Vec<char> = Vec::new();
    diff_value(&root, left, right, &mut diffs);
    assert(root@ =~= Seq::<char>::empty());
    assert(dviews(diffs@) =~= diff(Seq::empty(), left@, right@));
    let added = count_kind_exec(&diffs, ChangeKind::Added);
    let removed = count_kind_exec(&diffs, ChangeKind::Removed);
    let changed = count_kind_exec(&diffs, ChangeKind::Changed);
    let identical = diffs.len() == 0;
    proof {
        law_counts_partition(dviews(diffs@));
    }
    CompareResult { identical, added, removed, changed, differences: diffs }
}

// ---- Laws -------------------------------------------------------------------

/// Every difference is of exactly one kind: the three counts add up to the
/// number of differences.
pub proof fn law_counts_partition(ds: Seq<DifferenceV>)
    ensures
        count_kind(ds, ChangeKind::Added) + count_kind(ds, ChangeKind::Removed) + count_kind(ds, ChangeKind::Changed)
            == ds.len(),
    decreases ds.len(),
{
    if ds.len() > 0 {
        law_counts_partition(ds.drop_last());
    }
}

/// A value compared with itself has no differences, at any path.
pub proof fn law_diff_self(path: Seq<char>, x: JsonV)
    ensures
        diff(path, x, x) == Seq::<DifferenceV>::empty(),
    decreases x, 0nat,
{
    lemma_json_eq_refl(x);
    match x {
        JsonV::Object(ks, vs) => {
            lemma_members_self(path, ks, vs);
        },
        _ => {},
    }
}

proof fn lemma_members_self(path: Seq<char>, ks: Seq<Seq<char>>, vs: Seq<JsonV>)
    ensures
        diff_members(path, ks, vs, ks, vs) == Seq::<DifferenceV>::empty(),
    decreases vs, 1nat,
{
    if vs.len() > 0 {
        lemma_seq_lt_irreflexive(ks[0]);
        law_diff_self(key_path(path, ks[0]), vs[0]);
        lemma_members_self(path, ks.subrange(1, ks.len() as int), vs.subrange(1, vs.len() as int));
        assert(diff_members(path, ks, vs, ks, vs) =~= Seq::<DifferenceV>::empty());
    }
}

/// Comparing a live object with an identical export reports it identical:
/// no differences and all three counts zero.
pub proof fn law_compare_identical(x: JsonV)
    ensures
        diff(Seq::empty(), x, x) == Seq::<DifferenceV>::empty(),
        count_kind(diff(Seq::empty(), x, x), ChangeKind::Added) == 0,
        count_kind(diff(Seq::empty(), x, x), ChangeKind::Removed) == 0,
        count_kind(diff(Seq::empty(), x, x), ChangeKind::Changed) == 0,
{
    law_diff_self(Seq::empty(), x);
}

/// The same difference seen from the other side: added and removed trade
/// places, and so do the two values.
pub open spec fn flip(d: DifferenceV) -> DifferenceV {
    DifferenceV {
        path: d.path,
        kind: match d.kind {
            ChangeKind::Added => ChangeKind::Removed,
            ChangeKind::Removed => ChangeKind::Added,
            ChangeKind::Changed => ChangeKind::Changed,
        },
        left: d.right,
        right: d.left,
    }
}

/// The differences of a sequence, each seen from the other side.
pub open spec fn flip_all(ds: Seq<DifferenceV>) -> Seq<DifferenceV> {
    ds.map_values(|d: DifferenceV| flip(d))
}

proof fn lemma_flip_concat(a: Seq<DifferenceV>, b: Seq<DifferenceV>)
    ensures
        flip_all(a + b) == flip_all(a) + flip_all(b),
{
    assert(flip_all(a + b) =~= flip_all(a) + flip_all(b));
}

/// Swapping the two sides of a comparison reports the same paths, in the
/// same order, with added and removed exchanged and the two values swapped.
pub proof fn law_diff_swap(path: Seq<char>, l: JsonV, r: JsonV)
    ensures
        diff(path, r, l) == flip_all(diff(path, l, r)),
    decreases l, r, 0nat,
{
    if is_ignored(path) {
        assert(flip_all(Seq::<DifferenceV>::empty()) =~= Seq::<DifferenceV>::empty());
    } else {
        match (l, r) {
            (JsonV::Object(lk, lv), JsonV::Object(rk, rv)) => {
                lemma_members_swap(path, lk, lv, rk, rv);
            },
            (JsonV::Array(la), JsonV::Array(ra)) => {
                lemma_json_eq_sym(l, r);
                if items_eq(la, ra) {
                    assert(flip_all(Seq::<DifferenceV>::empty()) =~= Seq::<DifferenceV>::empty());
                } else {
                    let n = if la.len() >= ra.len() { la.len() } else { ra.len() };
                    lemma_items_swap(path, la, ra, n);
                }
            },
            _ => {
                lemma_json_eq_sym(l, r);
                if json_eq(l, r) {
                    assert(flip_all(Seq::<DifferenceV>::empty()) =~= Seq::<DifferenceV>::empty());
                } else {
                    assert(flip_all(diff(path, l, r)) =~= diff(path, r, l));
                }
            },
        }
    }
}

proof fn lemma_members_swap(
    path: Seq<char>,
    lk: Seq<Seq<char>>,
    lv: Seq<JsonV>,
    rk: Seq<Seq<char>>,
    rv: Seq<JsonV>,
)
    ensures
        diff_members(path, rk, rv, lk, lv) == flip_all(diff_members(path, lk, lv, rk, rv)),
    decreases lv, rv, 1nat,
{
    let lk1 = lk.subrange(1, lk.len() as int);
    let lv1 = lv.subrange(1, lv.len() as int);
    let rk1 = rk.subrange(1, rk.len() as int);
    let rv1 = rv.subrange(1, rv.len() as int);
    if lv.len() == 0 && rv.len() == 0 {
        assert(flip_all(Seq::<DifferenceV>::empty()) =~= Seq::<DifferenceV>::empty());
    } else if rv.len() == 0 || (lv.len() > 0 && seq_lt(lk[0], rk[0])) {
        if rv.len() > 0 {
            lemma_seq_lt_total(lk[0], rk[0]);
        }
        lemma_members_swap(path, lk1, lv1, rk, rv);
        lemma_flip_concat(removed_member(key_path(path, lk[0]), lv[0]), diff_members(path, lk1, lv1, rk, rv));
        assert(flip_all(removed_member(key_path(path, lk[0]), lv[0])) =~= added_member(key_path(path, lk[0]), lv[0]));
    } else if lv.len() == 0 || seq_lt(rk[0], lk[0]) {
        if lv.len() > 0 {
            lemma_seq_lt_total(lk[0], rk[0]);
        }
        lemma_members_swap(path, lk, lv, rk1, rv1);
        lemma_flip_concat(added_member(key_path(path, rk[0]), rv[0]), diff_members(path, lk, lv, rk1, rv1));
        assert(flip_all(added_member(key_path(path, rk[0]), rv[0])) =~= removed_member(key_path(path, rk[0]), rv[0]));
    } else {
        lemma_seq_lt_total(lk[0], rk[0]);
        assert(lk[0] == rk[0]);
        law_diff_swap(key_path(path, lk[0]), lv[0], rv[0]);
        lemma_members_swap(path, lk1, lv1, rk1, rv1);
        lemma_flip_concat(diff(key_path(path, lk[0]), lv[0], rv[0]), diff_members(path, lk1, lv1, rk1, rv1));
    }
}

proof fn lemma_items_swap(path: Seq<char>, la: Seq<JsonV>, ra: Seq<JsonV>, n: nat)
    ensures
        diff_items(path, ra, la, n) == flip_all(diff_items(path, la, ra, n)),
    decreases la, ra, n,
{
    if n == 0 {
        assert(flip_all(Seq::<DifferenceV>::empty()) =~= Seq::<DifferenceV>::empty());
    } else {
        let i = (n - 1) as nat;
        let p = index_path(path, i);
        lemma_items_swap(path, la, ra, i);
        let tail = if i < la.len() && i < ra.len() {
            diff(p, la[i as int], ra[i as int])
        } else if i < la.len() {
            seq![DifferenceV { path: p, kind: ChangeKind::Removed, left: Some(la[i as int]), right: None }]
        } else if i < ra.len() {
            seq![DifferenceV { path: p, kind: ChangeKind::Added, left: None, right: Some(ra[i as int]) }]
        } else {
            Seq::empty()
        };
        lemma_flip_concat(diff_items(path, la, ra, i), tail);
        if i < la.len() && i < ra.len() {
            law_diff_swap(p, la[i as int], ra[i as int]);
        } else {
            assert(flip_all(tail) =~= (if i < ra.len() && i < la.len() {
                diff(p, ra[i as int], la[i as int])
            } else if i < ra.len() {
                seq![DifferenceV { path: p, kind: ChangeKind::Removed, left: Some(ra[i as int]), right: None }]
            } else if i < la.len() {
                seq![DifferenceV { path: p, kind: ChangeKind::Added, left: None, right: Some(la[i as int]) }]
            } else {
                Seq::empty()
            }));
        }
    }
}

proof fn lemma_count_flip(ds: Seq<DifferenceV>)
    ensures
        count_kind(flip_all(ds), ChangeKind::Added) == count_kind(ds, ChangeKind::Removed),
        count_kind(flip_all(ds), ChangeKind::Removed) == count_kind(ds, ChangeKind::Added),
        count_kind(flip_all(ds), ChangeKind::Changed) == count_kind(ds, ChangeKind::Changed),
    decreases ds.len(),
{
    if ds.len() > 0 {
        lemma_count_flip(ds.drop_last());
        assert(flip_all(ds).drop_last() =~= flip_all(ds.drop_last()));
    }
}

/// Comparing the export with the live object instead of the other way round
/// counts as added what was removed and as removed what was added; the
/// changed count stays.
pub proof fn law_compare_swap(l: JsonV, r: JsonV)
    ensures
        diff(Seq::empty(), r, l) == flip_all(diff(Seq::empty(), l, r)),
        count_kind(diff(Seq::empty(), r, l), ChangeKind::Added) == count_kind(diff(Seq::empty(), l, r), ChangeKind::Removed),
        count_kind(diff(Seq::empty(), r, l), ChangeKind::Removed) == count_kind(diff(Seq::empty(), l, r), ChangeKind::Added),
        count_kind(diff(Seq::empty(), r, l), ChangeKind::Changed) == count_kind(diff(Seq::empty(), l, r), ChangeKind::Changed),
{
    law_diff_swap(Seq::empty(), l, r);
    lemma_count_flip(diff(Seq::empty(), l, r));
}

/// No difference is reported at a path whose last segment is ignored.
pub open spec fn none_ignored(ds: Seq<DifferenceV>) -> bool {
    forall|i: int| 0 <= i < ds.len() ==> !is_ignored(#[trigger] ds[i].path)
}

proof fn lemma_none_ignored_concat(a: Seq<DifferenceV>, b: Seq<DifferenceV>)
    requires
        none_ignored(a),
        none_ignored(b),
    ensures
        none_ignored(a + b),
{
    assert forall|i: int| 0 <= i < (a + b).len() implies !is_ignored(#[trigger] (a + b)[i].path) by {
        if i < a.len() {
            assert((a + b)[i] == a[i]);
        } else {
            assert((a + b)[i] == b[i - a.len()]);
        }
    }
}

/// An item's path ends in `]`, so it is never one of the ignored keys.
proof fn lemma_index_path_not_ignored(path: Seq<char>, i: nat)
    ensures
        !is_ignored(index_path(path, i)),
{
    reveal_strlit("id");
    reveal_strlit("createdDateTime");
    reveal_strlit("lastModifiedDateTime");
    reveal_strlit("version");
    reveal_strlit("@odata.context");
    reveal_strlit("supportsScopeTags");
    reveal_strlit("isAssigned");
    reveal_strlit("assignments");
    let p = index_path(path, i);
    assert(p.last() == ']');
    assert(p.len() > 0);
    let seg = last_segment(p);
    assert(seg == last_segment(p.drop_last()).push(']'));
    assert(seg.len() > 0 && seg.last() == ']');
    assert(seg != "id"@ && seg != "createdDateTime"@ && seg != "lastModifiedDateTime"@ && seg != "version"@) by {
        assert(seg.last() != "id"@.last());
        assert(seg.last() != "createdDateTime"@.last());
        assert(seg.last() != "lastModifiedDateTime"@.last());
        assert(seg.last() != "version"@.last());
    }
    assert(seg != "@odata.context"@ && seg != "supportsScopeTags"@ && seg != "isAssigned"@ && seg != "assignments"@) by {
        assert(seg.last() != "@odata.context"@.last());
        assert(seg.last() != "supportsScopeTags"@.last());
        assert(seg.last() != "isAssigned"@.last());
        assert(seg.last() != "assignments"@.last());
    }
    let ctx = "@odata.context"@;
    assert(p != ctx) by {
        assert(p.last() != ctx.last());
    }
    if p.len() > ctx.len() {
        let d = seq!['.'] + ctx;
        let i = p.len() - ctx.len() - 1;
        if occurs_at(p, d, i) {
            assert(p.subrange(i, i + d.len()).last() == p.last());
            assert(d.last() == ctx.last());
        }
    }
}

/// Volatile fields (ids, timestamps, versions, assignments and the like) are
/// ignored: no reported difference lies at such a field, at any depth.
pub proof fn law_ignored_fields_never_reported(path: Seq<char>, l: JsonV, r: JsonV)
    ensures
        none_ignored(diff(path, l, r)),
    decreases l, r, 0nat,
{
    if !is_ignored(path) {
        match (l, r) {
            (JsonV::Object(lk, lv), JsonV::Object(rk, rv)) => {
                lemma_members_not_ignored(path, lk, lv, rk, rv);
            },
            (JsonV::Array(la), JsonV::Array(ra)) => {
                if !items_eq(la, ra) {
                    let n = if la.len() >= ra.len() { la.len() } else { ra.len() };
                    lemma_items_not_ignored(path, la, ra, n);
                }
            },
            _ => {},
        }
    }
}

proof fn lemma_members_not_ignored(
    path: Seq<char>,
    lk: Seq<Seq<char>>,
    lv: Seq<JsonV>,
    rk: Seq<Seq<char>>,
    rv: Seq<JsonV>,
)
    ensures
        none_ignored(diff_members(path, lk, lv, rk, rv)),
    decreases lv, rv, 1nat,
{
    let lk1 = lk.subrange(1, lk.len() as int);
    let lv1 = lv.subrange(1, lv.len() as int);
    let rk1 = rk.subrange(1, rk.len() as int);
    let rv1 = rv.subrange(1, rv.len() as int);
    if lv.len() == 0 && rv.len() == 0 {
    } else if rv.len() == 0 || (lv.len() > 0 && seq_lt(lk[0], rk[0])) {
        lemma_members_not_ignored(path, lk1, lv1, rk, rv);
        lemma_none_ignored_concat(removed_member(key_path(path, lk[0]), lv[0]), diff_members(path, lk1, lv1, rk, rv));
    } else if lv.len() == 0 || seq_lt(rk[0], lk[0]) {
        lemma_members_not_ignored(path, lk, lv, rk1, rv1);
        lemma_none_ignored_concat(added_member(key_path(path, rk[0]), rv[0]), diff_members(path, lk, lv, rk1, rv1));
    } else {
        law_ignored_fields_never_reported(key_path(path, lk[0]), lv[0], rv[0]);
        lemma_members_not_ignored(path, lk1, lv1, rk1, rv1);
        lemma_none_ignored_concat(diff(key_path(path, lk[0]), lv[0], rv[0]), diff_members(path, lk1, lv1, rk1, rv1));
    }
}

proof fn lemma_items_not_ignored(path: Seq<char>, la: Seq<JsonV>, ra: Seq<JsonV>, n: nat)
    ensures
        none_ignored(diff_items(path, la, ra, n)),
    decreases la, ra, n,
{
    if n > 0 {
        let i = (n - 1) as nat;
        let p = index_path(path, i);
        lemma_items_not_ignored(path, la, ra, i);
        lemma_index_path_not_ignored(path, i);
        let tail = if i < la.len() && i < ra.len() {
            diff(p, la[i as int], ra[i as int])
        } else if i < la.len() {
            seq![DifferenceV { path: p, kind: ChangeKind::Removed, left: Some(la[i as int]), right: None }]
        } else if i < ra.len() {
            seq![DifferenceV { path: p, kind: ChangeKind::Added, left: None, right: Some(ra[i as int]) }]
        } else {
            Seq::empty()
        };
        if i < la.len() && i < ra.len() {
            law_ignored_fields_never_reported(p, la[i as int], ra[i as int]);
        }
        lemma_none_ignored_concat(diff_items(path, la, ra, i), tail);
    }
}

/// The `@odata.context` member is ignored at any depth.
pub proof fn law_context_member_ignored(path: Seq<char>)
    ensures
        is_ignored(key_path(path, "@odata.context"@)),
{
    let ctx = "@odata.context"@;
    let p = key_path(path, ctx);
    if path.len() > 0 {
        let d = seq!['.'] + ctx;
        assert(p == path + d);
        assert(p.subrange(p.len() - ctx.len() - 1, p.len() as int) =~= d);
        assert(occurs_at(p, d, p.len() - ctx.len() - 1));
    }
}

proof fn lemma_last_segment_of_member(p: Seq<char>, w: Seq<char>)
    requires
        forall|i: int| 0 <= i < w.len() ==> #[trigger] w[i] != '.',
    ensures
        last_segment(w) == w,
        last_segment(p + seq!['.'] + w) == w,
    decreases w.len(),
{
    if w.len() > 0 {
        let w1 = w.drop_last();
        lemma_last_segment_of_member(p, w1);
        assert(w1.push(w.last()) =~= w);
        assert((p + seq!['.'] + w).drop_last() =~= p + seq!['.'] + w1);
    } else {
        assert(p + seq!['.'] + w =~= p.push('.'));
    }
}

/// The volatile members (`id`, `createdDateTime`, `lastModifiedDateTime`,
/// `version`, `@odata.context`, `supportsScopeTags`, `isAssigned`,
/// `assignments`) are ignored wherever they stand, and no difference a
/// comparison reports lies at such a member, at any depth.
pub proof fn law_volatile_members_never_reported(path: Seq<char>, l: JsonV, r: JsonV, parent: Seq<char>, w: Seq<char>)
    requires
        w == "id"@ || w == "createdDateTime"@ || w == "lastModifiedDateTime"@ || w == "version"@ || w == "supportsScopeTags"@ || w == "isAssigned"@ || w == "assignments"@ || w == "@odata.context"@,
    ensures
        is_ignored(key_path(parent, w)),
        forall|i: int| 0 <= i < diff(path, l, r).len() ==> (#[trigger] diff(path, l, r)[i]).path != key_path(parent, w),
{
    if w == "@odata.context"@ {
        law_context_member_ignored(parent);
    } else {
        reveal_strlit("id");
        assert("id"@.len() == 2);
        reveal_strlit("createdDateTime");
        assert("createdDateTime"@.len() == 15);
        reveal_strlit("lastModifiedDateTime");
        assert("lastModifiedDateTime"@.len() == 20);
        reveal_strlit("version");
        assert("version"@.len() == 7);
        reveal_strlit("supportsScopeTags");
        assert("supportsScopeTags"@.len() == 17);
        reveal_strlit("isAssigned");
        assert("isAssigned"@.len() == 10);
        reveal_strlit("assignments");
        assert("assignments"@.len() == 11);
        assert forall|i: int| 0 <= i < w.len() implies #[trigger] w[i] != '.' by {}
        lemma_last_segment_of_member(parent, w);
    }
    law_ignored_fields_never_reported(path, l, r);
}

/// Two scalar values (or values of different shapes) that are not equal are
/// reported as one change at their path, unless the path is ignored.
pub proof fn law_unequal_values_reported(path: Seq<char>, l: JsonV, r: JsonV)
    requires
        !is_ignored(path),
        !(l is Object && r is Object),
        !(l is Array && r is Array),
        !json_eq(l, r),
    ensures
        diff(path, l, r) == seq![DifferenceV { path: path, kind: ChangeKind::Changed, left: Some(l), right: Some(r) }],
{
}

/// Any top-level member other than the volatile ones is compared: a key
/// without `.` that is not `id`, `createdDateTime`, `lastModifiedDateTime`,
/// `version`, `supportsScopeTags`, `isAssigned` or `assignments` is not ignored.
pub proof fn law_other_members_compared(w: Seq<char>)
    requires
        forall|i: int| 0 <= i < w.len() ==> #[trigger] w[i] != '.',
        w != "id"@ && w != "createdDateTime"@ && w != "lastModifiedDateTime"@ && w != "version"@ && w != "supportsScopeTags"@ && w != "isAssigned"@ && w != "assignments"@,
    ensures
        !is_ignored(w),
        !is_ignored(key_path(Seq::empty(), w)),
{
    lemma_last_segment_of_member(Seq::empty(), w);
    reveal_strlit("@odata.context");
    assert("@odata.context"@[6] == '.');
    assert(w != "@odata.context"@) by {
        if w == "@odata.context"@ {
            assert(w[6] == '.');
        }
    }
    if w.len() > "@odata.context"@.len() {
        let d = seq!['.'] + "@odata.context"@;
        let k = w.len() - "@odata.context"@.len() - 1;
        if occurs_at(w, d, k) {
            assert(w.subrange(k, k + d.len())[0] == d[0]);
            assert(w[k] == '.');
        }
    }
}

/// Whether some difference at path `p` is of kind `k`.
pub open spec fn reports(ds: Seq<DifferenceV>, p: Seq<char>, k: ChangeKind) -> bool {
    exists|i: int| 0 <= i < ds.len() && (#[trigger] ds[i]).path == p && ds[i].kind == k
}

proof fn lemma_reports_concat(a: Seq<DifferenceV>, b: Seq<DifferenceV>, p: Seq<char>, k: ChangeKind, x: DifferenceV)
    ensures
        reports(a, p, k) || reports(b, p, k) ==> reports(a + b, p, k),
        a.contains(x) || b.contains(x) ==> (a + b).contains(x),
{
    if reports(a, p, k) {
        let i = choose|i: int| 0 <= i < a.len() && (#[trigger] a[i]).path == p && a[i].kind == k;
        assert((a + b)[i] == a[i]);
    } else if reports(b, p, k) {
        let i = choose|i: int| 0 <= i < b.len() && (#[trigger] b[i]).path == p && b[i].kind == k;
        assert((a + b)[a.len() + i] == b[i]);
    }
    if a.contains(x) {
        let i = choose|i: int| 0 <= i < a.len() && a[i] == x;
        assert((a + b)[i] == a[i]);
    } else if b.contains(x) {
        let i = choose|i: int| 0 <= i < b.len() && b[i] == x;
        assert((a + b)[a.len() + i] == b[i]);
    }
}

proof fn lemma_sorted_tail(ks: Seq<Seq<char>>)
    requires
        ks.len() > 0,
        crate::json::keys_sorted(ks),
    ensures
        crate::json::keys_sorted(ks.subrange(1, ks.len() as int)),
{
    let t = ks.subrange(1, ks.len() as int);
    assert forall|i: int, j: int| 0 <= i < j < t.len() implies seq_lt(#[trigger] t[i], #[trigger] t[j]) by {
        assert(t[i] == ks[i + 1] && t[j] == ks[j + 1]);
    }
}

/// In sorted keys, a key that comes before the first key occurs nowhere.
proof fn lemma_before_first_absent(ks: Seq<Seq<char>>, w: Seq<char>)
    requires
        ks.len() > 0,
        crate::json::keys_sorted(ks),
        seq_lt(w, ks[0]),
    ensures
        !ks.contains(w),
{
    if ks.contains(w) {
        let b = choose|b: int| 0 <= b < ks.len() && ks[b] == w;
        if b == 0 {
            lemma_seq_lt_irreflexive(w);
        } else {
            assert(seq_lt(ks[0], ks[b]));
            crate::json::lemma_seq_lt_transitive(w, ks[0], w);
            lemma_seq_lt_irreflexive(w);
        }
    }
}

/// A sorted key list holds its first key nowhere else.
proof fn lemma_first_only_at_zero(ks: Seq<Seq<char>>, a: int)
    requires
        0 < a < ks.len(),
        crate::json::keys_sorted(ks),
    ensures
        ks[a] != ks[0],
{
    assert(seq_lt(ks[0], ks[a]));
    lemma_seq_lt_irreflexive(ks[0]);
}

proof fn lemma_members_report(path: Seq<char>, lk: Seq<Seq<char>>, lv: Seq<JsonV>, rk: Seq<Seq<char>>, rv: Seq<JsonV>, w: Seq<char>)
    requires
        crate::json::keys_sorted(lk),
        crate::json::keys_sorted(rk),
        lk.len() == lv.len(),
        rk.len() == rv.len(),
        !is_ignored(key_path(path, w)),
    ensures
        lk.contains(w) && !rk.contains(w) ==> reports(diff_members(path, lk, lv, rk, rv), key_path(path, w), ChangeKind::Removed),
        !lk.contains(w) && rk.contains(w) ==> reports(diff_members(path, lk, lv, rk, rv), key_path(path, w), ChangeKind::Added),
        forall|a: int, b: int|
            #![trigger lk[a], rk[b]]
            0 <= a < lk.len() && 0 <= b < rk.len() && lk[a] == w && rk[b] == w && diff(key_path(path, w), lv[a], rv[b]).len() > 0
                ==> diff_members(path, lk, lv, rk, rv).contains(diff(key_path(path, w), lv[a], rv[b])[0]),
    decreases lv.len() + rv.len(),
{
    let kp = key_path(path, w);
    let dm = diff_members(path, lk, lv, rk, rv);
    if lv.len() == 0 && rv.len() == 0 {
    } else if rv.len() == 0 || (lv.len() > 0 && seq_lt(lk[0], rk[0])) {
        let lk1 = lk.subrange(1, lk.len() as int);
        let lv1 = lv.subrange(1, lv.len() as int);
        lemma_sorted_tail(lk);
        let head = removed_member(key_path(path, lk[0]), lv[0]);
        let rest = diff_members(path, lk1, lv1, rk, rv);
        assert(dm == head + rest);
        lemma_members_report(path, lk1, lv1, rk, rv, w);
        if lk[0] == w {
            if rv.len() > 0 {
                lemma_before_first_absent(rk, w);
            }
            assert(head[0].path == kp && head[0].kind == ChangeKind::Removed);
            assert(dm[0] == head[0]);
        } else {
            if lk.contains(w) {
                let a = choose|a: int| 0 <= a < lk.len() && lk[a] == w;
                assert(lk1[a - 1] == w);
            }
            if lk1.contains(w) {
                let a = choose|a: int| 0 <= a < lk1.len() && lk1[a] == w;
                assert(lk[a + 1] == w);
            }
            lemma_reports_concat(head, rest, kp, ChangeKind::Removed, head[0]);
            lemma_reports_concat(head, rest, kp, ChangeKind::Added, head[0]);
            assert forall|a: int, b: int|
                #![trigger lk[a], rk[b]]
                0 <= a < lk.len() && 0 <= b < rk.len() && lk[a] == w && rk[b] == w && diff(kp, lv[a], rv[b]).len() > 0
                    implies dm.contains(diff(kp, lv[a], rv[b])[0]) by {
                assert(lk1[a - 1] == lk[a] && lv1[a - 1] == lv[a]);
                lemma_reports_concat(head, rest, kp, ChangeKind::Removed, diff(kp, lv[a], rv[b])[0]);
            }
        }
    } else if lv.len() == 0 || seq_lt(rk[0], lk[0]) {
        let rk1 = rk.subrange(1, rk.len() as int);
        let rv1 = rv.subrange(1, rv.len() as int);
        lemma_sorted_tail(rk);
        let head = added_member(key_path(path, rk[0]), rv[0]);
        let rest = diff_members(path, lk, lv, rk1, rv1);
        assert(dm == head + rest);
        lemma_members_report(path, lk, lv, rk1, rv1, w);
        if rk[0] == w {
            if lv.len() > 0 {
                lemma_before_first_absent(lk, w);
            }
            assert(head[0].path == kp && head[0].kind == ChangeKind::Added);
            assert(dm[0] == head[0]);
        } else {
            if rk.contains(w) {
                let b = choose|b: int| 0 <= b < rk.len() && rk[b] == w;
                assert(rk1[b - 1] == w);
            }
            if rk1.contains(w) {
                let b = choose|b: int| 0 <= b < rk1.len() && rk1[b] == w;
                assert(rk[b + 1] == w);
            }
            lemma_reports_concat(head, rest, kp, ChangeKind::Removed, head[0]);
            lemma_reports_concat(head, rest, kp, ChangeKind::Added, head[0]);
            assert forall|a: int, b: int|
                #![trigger lk[a], rk[b]]
                0 <= a < lk.len() && 0 <= b < rk.len() && lk[a] == w && rk[b] == w && diff(kp, lv[a], rv[b]).len() > 0
                    implies dm.contains(diff(kp, lv[a], rv[b])[0]) by {
                assert(rk1[b - 1] == rk[b] && rv1[b - 1] == rv[b]);
                lemma_reports_concat(head, rest, kp, ChangeKind::Removed, diff(kp, lv[a], rv[b])[0]);
            }
        }
    } else {
        lemma_seq_lt_total(lk[0], rk[0]);
        assert(lk[0] == rk[0]);
        let lk1 = lk.subrange(1, lk.len() as int);
        let lv1 = lv.subrange(1, lv.len() as int);
        let rk1 = rk.subrange(1, rk.len() as int);
        let rv1 = rv.subrange(1, rv.len() as int);
        lemma_sorted_tail(lk);
        lemma_sorted_tail(rk);
        let head = diff(key_path(path, lk[0]), lv[0], rv[0]);
        let rest = diff_members(path, lk1, lv1, rk1, rv1);
        assert(dm == head + rest);
        lemma_members_report(path, lk1, lv1, rk1, rv1, w);
        if lk[0] == w {
            assert forall|a: int, b: int|
                #![trigger lk[a], rk[b]]
                0 <= a < lk.len() && 0 <= b < rk.len() && lk[a] == w && rk[b] == w && diff(kp, lv[a], rv[b]).len() > 0
                    implies dm.contains(diff(kp, lv[a], rv[b])[0]) by {
                if a > 0 {
                    lemma_first_only_at_zero(lk, a);
                }
                if b > 0 {
                    lemma_first_only_at_zero(rk, b);
                }
                assert(dm[0] == head[0]);
            }
        } else {
            if lk.contains(w) {
                let a = choose|a: int| 0 <= a < lk.len() && lk[a] == w;
                assert(lk1[a - 1] == w);
            }
            if lk1.contains(w) {
                let a = choose|a: int| 0 <= a < lk1.len() && lk1[a] == w;
                assert(lk[a + 1] == w);
            }
            if rk.contains(w) {
                let b = choose|b: int| 0 <= b < rk.len() && rk[b] == w;
                assert(rk1[b - 1] == w);
            }
            if rk1.contains(w) {
                let b = choose|b: int| 0 <= b < rk1.len() && rk1[b] == w;
                assert(rk[b + 1] == w);
            }
            lemma_reports_concat(head, rest, kp, ChangeKind::Removed, head[0]);
            lemma_reports_concat(head, rest, kp, ChangeKind::Added, head[0]);
            assert forall|a: int, b: int|
                #![trigger lk[a], rk[b]]
                0 <= a < lk.len() && 0 <= b < rk.len() && lk[a] == w && rk[b] == w && diff(kp, lv[a], rv[b]).len() > 0
                    implies dm.contains(diff(kp, lv[a], rv[b])[0]) by {
                assert(lk1[a - 1] == lk[a] && lv1[a - 1] == lv[a]);
                assert(rk1[b - 1] == rk[b] && rv1[b - 1] == rv[b]);
                lemma_reports_concat(head, rest, kp, ChangeKind::Removed, diff(kp, lv[a], rv[b])[0]);
            }
        }
    }
}

/// A comparison of two objects reports every change of a top-level member
/// other than the volatile ones: a member only the live object has is
/// reported removed, one only the file has is reported added, and a scalar
/// member whose values differ is reported changed, each at the member's key.
pub proof fn law_member_changes_reported(l: JsonV, r: JsonV, w: Seq<char>)
    requires
        l.wf(),
        r.wf(),
        l is Object,
        r is Object,
        forall|i: int| 0 <= i < w.len() ==> #[trigger] w[i] != '.',
        w != "id"@ && w != "createdDateTime"@ && w != "lastModifiedDateTime"@ && w != "version"@ && w != "supportsScopeTags"@ && w != "isAssigned"@ && w != "assignments"@,
    ensures
        l.has_key(w) && !r.has_key(w) ==> reports(diff(Seq::empty(), l, r), w, ChangeKind::Removed),
        !l.has_key(w) && r.has_key(w) ==> reports(diff(Seq::empty(), l, r), w, ChangeKind::Added),
        (l.get(w) matches Some(x) && r.get(w) matches Some(y) && !(x is Object && y is Object) && !(x is Array && y is Array)
            && !json_eq(x, y)) ==> reports(diff(Seq::empty(), l, r), w, ChangeKind::Changed),
{
    law_other_members_compared(w);
    assert(key_path(Seq::empty(), w) == w);
    let lk = l->Object_0;
    let lv = l->Object_1;
    let rk = r->Object_0;
    let rv = r->Object_1;
    assert(!is_ignored(Seq::empty())) by {
        reveal_strlit("id");
        assert("id"@.len() == 2);
        reveal_strlit("createdDateTime");
        assert("createdDateTime"@.len() == 15);
        reveal_strlit("lastModifiedDateTime");
        assert("lastModifiedDateTime"@.len() == 20);
        reveal_strlit("version");
        assert("version"@.len() == 7);
        reveal_strlit("@odata.context");
        assert("@odata.context"@.len() == 14);
        reveal_strlit("supportsScopeTags");
        assert("supportsScopeTags"@.len() == 17);
        reveal_strlit("isAssigned");
        assert("isAssigned"@.len() == 10);
        reveal_strlit("assignments");
        assert("assignments"@.len() == 11);
        assert(last_segment(Seq::<char>::empty()) == Seq::<char>::empty());
    }
    assert(diff(Seq::empty(), l, r) == diff_members(Seq::empty(), lk, lv, rk, rv));
    lemma_members_report(Seq::empty(), lk, lv, rk, rv, w);
    if lk.contains(w) {
        let a = choose|a: int| 0 <= a < lk.len() && lk[a] == w;
        lemma_first_key_sorted(lk, a);
        crate::json::lemma_key_index(lk, w, a);
    } else {
        crate::json::lemma_key_absent(lk, w);
    }
    if rk.contains(w) {
        let b = choose|b: int| 0 <= b < rk.len() && rk[b] == w;
        lemma_first_key_sorted(rk, b);
        crate::json::lemma_key_index(rk, w, b);
        if lk.contains(w) {
            let a = choose|a: int| 0 <= a < lk.len() && lk[a] == w;
            let x = lv[a];
            let y = rv[b];
            if !(x is Object && y is Object) && !(x is Array && y is Array) && !json_eq(x, y) {
                law_unequal_values_reported(w, x, y);
                let d = diff(w, x, y)[0];
                assert(diff_members(Seq::empty(), lk, lv, rk, rv).contains(d));
                let i = choose|i: int| 0 <= i < diff(Seq::empty(), l, r).len() && diff(Seq::empty(), l, r)[i] == d;
                assert(diff(Seq::empty(), l, r)[i].path == w);
            }
        }
    } else {
        crate::json::lemma_key_absent(rk, w);
    }
}

/// In sorted keys a position holding a key is its first position.
proof fn lemma_first_key_sorted(ks: Seq<Seq<char>>, a: int)
    requires
        0 <= a < ks.len(),
        crate::json::keys_sorted(ks),
    ensures
        crate::json::is_first_key(ks, ks[a], a),
{
    assert forall|j: int| 0 <= j < a implies ks[j] != ks[a] by {
        assert(seq_lt(ks[j], ks[a]));
        lemma_seq_lt_irreflexive(ks[a]);
    }
}

} // verus!

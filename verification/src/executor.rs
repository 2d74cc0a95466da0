//! Planning, validation and explanation of photo moves. A plan pairs every
//! resolvable file under the scanned root with its destination path, sorted
//! by source for determinism, and lists the destination directories that have
//! to be created first.

use vstd::prelude::*;
use vstd::string::*;
use vstd::seq_lib::*;
use vstd::multiset::Multiset;
use itertools::Itertools;
use crate::metadata::{CaptureDate, ExtractError};
use crate::paths::{parent_of, parent_str, EntryInfo};
use crate::registry::{apply_tokens, Registry, Token};
use crate::text::{
    append_dec,
    dec_rep,
    lemma_lex_le_total,
    lemma_lex_le_trans,
    lex_le,
    str_lex_le,
};

verus! {

broadcast use {vstd::seq_lib::group_to_multiset_ensures, vstd::multiset::group_multiset_axioms};

// ---------------------------------------------------------------------------
// Views of string collections
// ---------------------------------------------------------------------------

/// The character sequences of a sequence of strings.
pub open spec fn strs_view(s: Seq<String>) -> Seq<Seq<char>> {
    s.map_values(|x: String| x@)
}

/// The character-sequence pairs of a sequence of string pairs.
pub open spec fn moves_view(s: Seq<(String, String)>) -> Seq<(Seq<char>, Seq<char>)> {
    s.map_values(|p: (String, String)| (p.0@, p.1@))
}

// ---------------------------------------------------------------------------
// Keeping first occurrences
// ---------------------------------------------------------------------------

/// The subsequence that keeps, in order, the first occurrence of each
/// distinct element.
pub open spec fn dedup_first(s: Seq<Seq<char>>) -> Seq<Seq<char>>
    decreases s.len(),
{
    if s.len() == 0 {
        Seq::empty()
    } else if s.drop_last().contains(s.last()) {
        dedup_first(s.drop_last())
    } else {
        dedup_first(s.drop_last()).push(s.last())
    }
}

/// Keeping first occurrences keeps exactly the elements.
pub proof fn lemma_dedup_first_contains(s: Seq<Seq<char>>, x: Seq<char>)
    ensures
        dedup_first(s).contains(x) <==> s.contains(x),
    decreases s.len(),
{
    if s.len() == 0 {
    } else {
        let t = s.drop_last();
        let d = dedup_first(t);
        lemma_dedup_first_contains(t, x);
        if s.contains(x) {
            if x == s.last() {
                if t.contains(s.last()) {
                } else {
                    assert(d.push(s.last())[d.len() as int] == x);
                }
            } else {
                let i = choose|i: int| 0 <= i < s.len() && s[i] == x;
                assert(i < t.len() && t[i] == x);
                if t.contains(s.last()) {
                } else {
                    let j = choose|j: int| 0 <= j < d.len() && d[j] == x;
                    assert(d.push(s.last())[j] == x);
                }
            }
        } else {
            assert(!t.contains(x)) by {
                if t.contains(x) {
                    let i = choose|i: int| 0 <= i < t.len() && t[i] == x;
                    assert(s[i] == x);
                }
            }
            assert(x != s.last());
            if !t.contains(s.last()) {
                assert(!d.push(s.last()).contains(x)) by {
                    if d.push(s.last()).contains(x) {
                        let i = choose|i: int|
                            0 <= i < d.push(s.last()).len() && d.push(s.last())[i] == x;
                        if i < d.len() {
                            assert(d[i] == x);
                        } else {
                            assert(d.push(s.last())[i] == s.last());
                        }
                    }
                }
            }
        }
    }
}

/// Keeping first occurrences leaves no duplicates.
pub proof fn lemma_dedup_first_no_duplicates(s: Seq<Seq<char>>)
    ensures
        dedup_first(s).no_duplicates(),
    decreases s.len(),
{
    if s.len() == 0 {
    } else {
        lemma_dedup_first_no_duplicates(s.drop_last());
        if !s.drop_last().contains(s.last()) {
            lemma_dedup_first_contains(s.drop_last(), s.last());
        }
    }
}

/// Keeping first occurrences never lengthens a sequence.
pub proof fn lemma_dedup_first_len(s: Seq<Seq<char>>)
    ensures
        dedup_first(s).len() <= s.len(),
    decreases s.len(),
{
    if s.len() == 0 {
    } else {
        lemma_dedup_first_len(s.drop_last());
    }
}

/// A sequence without duplicates is already its own deduplication.
pub proof fn lemma_dedup_first_distinct_id(s: Seq<Seq<char>>)
    requires
        s.no_duplicates(),
    ensures
        dedup_first(s) == s,
    decreases s.len(),
{
    if s.len() == 0 {
        assert(dedup_first(s) =~= s);
    } else {
        let t = s.drop_last();
        assert(t.no_duplicates());
        assert(!t.contains(s.last())) by {
            if t.contains(s.last()) {
                let i = choose|i: int| 0 <= i < t.len() && t[i] == s.last();
                assert(s[i] == s[s.len() - 1]);
            }
        }
        lemma_dedup_first_distinct_id(t);
        assert(dedup_first(s) =~= s);
    }
}

/// A repeated element strictly shrinks the deduplication.
pub proof fn lemma_dedup_first_dup_shrinks(s: Seq<Seq<char>>, i: int, j: int)
    requires
        0 <= i < j < s.len(),
        s[i] == s[j],
    ensures
        dedup_first(s).len() < s.len(),
    decreases s.len(),
{
    if j == s.len() - 1 {
        assert(s.drop_last()[i] == s.last());
        lemma_dedup_first_len(s.drop_last());
    } else {
        assert(s.drop_last()[i] == s[i]);
        assert(s.drop_last()[j] == s[j]);
        lemma_dedup_first_dup_shrinks(s.drop_last(), i, j);
    }
}

/// Relies on itertools' `unique`: it yields, in input order, the first
/// occurrence of each distinct element, detecting duplicates by equality.
#[verifier::external_body]
fn unique_strings(v: &Vec<String>) -> (r: Vec<String>)
    ensures
        strs_view(r@) == dedup_first(strs_view(v@)),
{
    v.iter().cloned().unique().collect()
}

// ---------------------------------------------------------------------------
// Sorting by lexicographic order
// ---------------------------------------------------------------------------

/// The move pairs are ordered by source path.
pub open spec fn sorted_by_source(pairs: Seq<(Seq<char>, Seq<char>)>) -> bool {
    forall|i: int, j: int|
        0 <= i < j < pairs.len() ==> #[trigger] lex_le(pairs[i].0, pairs[j].0)
}

/// The character sequences are in lexicographic order.
pub open spec fn sorted_lex(s: Seq<Seq<char>>) -> bool {
    forall|i: int, j: int| 0 <= i < j < s.len() ==> #[trigger] lex_le(s[i], s[j])
}

fn insert_move_sorted(out: &mut Vec<(String, String)>, m: (String, String))
    requires
        sorted_by_source(moves_view(old(out)@)),
    ensures
        sorted_by_source(moves_view(final(out)@)),
        moves_view(final(out)@).to_multiset() == moves_view(old(out)@).to_multiset().insert(
            (m.0@, m.1@),
        ),
{
    let n = out.len();
    let mut i: usize = 0;
    while i < n && str_lex_le(out[i].0.as_str(), m.0.as_str())
        invariant
            out == old(out),
            n == out@.len(),
            0 <= i <= n,
            forall|k: int| 0 <= k < i ==> lex_le(#[trigger] moves_view(out@)[k].0, m.0@),
        decreases n - i,
    {
        proof {
            assert(moves_view(out@)[i as int].0 == out@[i as int].0@);
        }
        i = i + 1;
    }
    proof {
        let pre = moves_view(out@);
        let mv = (m.0@, m.1@);
        assert forall|k: int| i <= k < pre.len() implies lex_le(mv.0, pre[k].0) by {
            lemma_lex_le_total(pre[i as int].0, mv.0);
            if k > i {
                lemma_lex_le_trans(mv.0, pre[i as int].0, pre[k].0);
            }
        }
    }
    let ghost pre = moves_view(out@);
    let ghost mv = (m.0@, m.1@);
    out.insert(i, m);
    proof {
        assert(moves_view(out@) =~= pre.insert(i as int, mv));
        let nv = moves_view(out@);
        assert forall|p: int, q: int| 0 <= p < q < nv.len() implies #[trigger] lex_le(
            nv[p].0,
            nv[q].0,
        ) by {
            if p < i && q < i {
                assert(nv[p] == pre[p] && nv[q] == pre[q]);
            } else if p < i && q == i {
                assert(nv[p] == pre[p] && nv[q] == mv);
            } else if p < i && q > i {
                assert(nv[p] == pre[p] && nv[q] == pre[q - 1]);
            } else if p == i {
                assert(nv[p] == mv && nv[q] == pre[q - 1]);
            } else {
                assert(nv[p] == pre[p - 1] && nv[q] == pre[q - 1]);
            }
        }
    }
}

/// Sorts the move pairs by source path.
fn sort_moves(v: Vec<(String, String)>) -> (r: Vec<(String, String)>)
    ensures
        sorted_by_source(moves_view(r@)),
        moves_view(r@).to_multiset() == moves_view(v@).to_multiset(),
{
    let ghost orig = moves_view(v@);
    let mut rest = v;
    let mut out: Vec<(String, String)> = Vec::new();
    proof {
        assert(moves_view(out@) =~= Seq::<(Seq<char>, Seq<char>)>::empty());
        assert(moves_view(out@).to_multiset().add(moves_view(rest@).to_multiset())
            =~= orig.to_multiset());
    }
    loop
        invariant
            sorted_by_source(moves_view(out@)),
            moves_view(out@).to_multiset().add(moves_view(rest@).to_multiset())
                == orig.to_multiset(),
        ensures
            rest@.len() == 0,
        decreases rest@.len(),
    {
        let ghost pre_rest = moves_view(rest@);
        match rest.pop() {
            None => {
                break ;
            },
            Some(m) => {
                let ghost mv = (m.0@, m.1@);
                proof {
                    assert(moves_view(rest@) =~= pre_rest.drop_last());
                    assert(pre_rest.last() == mv);
                    assert(pre_rest =~= pre_rest.drop_last().push(mv));
                    assert(pre_rest.to_multiset() == pre_rest.drop_last().to_multiset().insert(mv));
                }
                let ghost pre_out = moves_view(out@);
                insert_move_sorted(&mut out, m);
                proof {
                    assert(pre_out.to_multiset().insert(mv).add(pre_rest.drop_last().to_multiset())
                        =~= pre_out.to_multiset().add(pre_rest.to_multiset()));
                }
            },
        }
    }
    proof {
        let rv = moves_view(rest@);
        assert(rv.len() == 0);
        assert(rv.to_multiset().len() == 0);
        vstd::multiset::lemma_multiset_empty_len(rv.to_multiset());
        assert(moves_view(out@).to_multiset().add(rv.to_multiset()) =~= moves_view(
            out@,
        ).to_multiset());
    }
    out
}

fn insert_string_sorted(out: &mut Vec<String>, m: String)
    requires
        sorted_lex(strs_view(old(out)@)),
    ensures
        sorted_lex(strs_view(final(out)@)),
        strs_view(final(out)@).to_multiset() == strs_view(old(out)@).to_multiset().insert(m@),
{
    let n = out.len();
    let mut i: usize = 0;
    while i < n && str_lex_le(out[i].as_str(), m.as_str())
        invariant
            out == old(out),
            n == out@.len(),
            0 <= i <= n,
            forall|k: int| 0 <= k < i ==> lex_le(#[trigger] strs_view(out@)[k], m@),
        decreases n - i,
    {
        proof {
            assert(strs_view(out@)[i as int] == out@[i as int]@);
        }
        i = i + 1;
    }
    proof {
        let pre = strs_view(out@);
        assert forall|k: int| i <= k < pre.len() implies lex_le(m@, pre[k]) by {
            lemma_lex_le_total(pre[i as int], m@);
            if k > i {
                lemma_lex_le_trans(m@, pre[i as int], pre[k]);
            }
        }
    }
    let ghost pre = strs_view(out@);
    let ghost mv = m@;
    out.insert(i, m);
    proof {
        assert(strs_view(out@) =~= pre.insert(i as int, mv));
        let nv = strs_view(out@);
        assert forall|p: int, q: int| 0 <= p < q < nv.len() implies #[trigger] lex_le(
            nv[p],
            nv[q],
        ) by {
            if p < i && q < i {
                assert(nv[p] == pre[p] && nv[q] == pre[q]);
            } else if p < i && q == i {
                assert(nv[p] == pre[p] && nv[q] == mv);
            } else if p < i && q > i {
                assert(nv[p] == pre[p] && nv[q] == pre[q - 1]);
            } else if p == i {
                assert(nv[p] == mv && nv[q] == pre[q - 1]);
            } else {
                assert(nv[p] == pre[p - 1] && nv[q] == pre[q - 1]);
            }
        }
    }
}

/// Sorts the directory paths lexicographically.
fn sort_strings(v: Vec<String>) -> (r: Vec<String>)
    ensures
        sorted_lex(strs_view(r@)),
        strs_view(r@).to_multiset() == strs_view(v@).to_multiset(),
{
    let ghost orig = strs_view(v@);
    let mut rest = v;
    let mut out: Vec<String> = Vec::new();
    proof {
        assert(strs_view(out@) =~= Seq::<Seq<char>>::empty());
        assert(strs_view(out@).to_multiset().add(strs_view(rest@).to_multiset())
            =~= orig.to_multiset());
    }
    loop
        invariant
            sorted_lex(strs_view(out@)),
            strs_view(out@).to_multiset().add(strs_view(rest@).to_multiset())
                == orig.to_multiset(),
        ensures
            rest@.len() == 0,
        decreases rest@.len(),
    {
        let ghost pre_rest = strs_view(rest@);
        match rest.pop() {
            None => {
                break ;
            },
            Some(m) => {
                let ghost mv = m@;
                proof {
                    assert(strs_view(rest@) =~= pre_rest.drop_last());
                    assert(pre_rest.last() == mv);
                    assert(pre_rest =~= pre_rest.drop_last().push(mv));
                    assert(pre_rest.to_multiset() == pre_rest.drop_last().to_multiset().insert(mv));
                }
                let ghost pre_out = strs_view(out@);
                insert_string_sorted(&mut out, m);
                proof {
                    assert(pre_out.to_multiset().insert(mv).add(pre_rest.drop_last().to_multiset())
                        =~= pre_out.to_multiset().add(pre_rest.to_multiset()));
                }
            },
        }
    }
    proof {
        let rv = strs_view(rest@);
        assert(rv.len() == 0);
        assert(rv.to_multiset().len() == 0);
        vstd::multiset::lemma_multiset_empty_len(rv.to_multiset());
        assert(strs_view(out@).to_multiset().add(rv.to_multiset()) =~= strs_view(
            out@,
        ).to_multiset());
    }
    out
}

// ---------------------------------------------------------------------------
// Plans
// ---------------------------------------------------------------------------

/// One scanned file: its entry info and the outcome of metadata extraction.
pub struct ScannedEntry {
    pub info: EntryInfo,
    pub exif: Result<CaptureDate, ExtractError>,
}

/// An approved-to-run set of moves: the destination directories to create
/// first, and the (source, destination) move pairs, both in order.
pub struct ExecutionPlan {
    pub dirs_to_create: Vec<String>,
    pub moves: Vec<(String, String)>,
}

/// Options for one execution of a plan.
pub struct ExecutionOptions {
    pub force_overwrite: bool,
    pub no_prompts: bool,
}

/// The (source, destination) pairs of the entries whose template resolves,
/// in scan order: a file whose metadata cannot be decoded is left out.
pub open spec fn resolved_pairs(
    entries: Seq<ScannedEntry>,
    tokens: Seq<Token>,
    fmt: Seq<char>,
) -> Seq<(Seq<char>, Seq<char>)>
    decreases entries.len(),
{
    if entries.len() == 0 {
        Seq::empty()
    } else {
        let init = resolved_pairs(entries.drop_last(), tokens, fmt);
        match entries.last().exif {
            Ok(d) => init.push(
                (entries.last().info.path@, apply_tokens(tokens, fmt, d, entries.last().info)),
            ),
            Err(_) => init,
        }
    }
}

/// Every planned source path is the path of a scanned entry whose metadata
/// was decoded.
pub proof fn lemma_planned_sources_are_scanned(
    entries: Seq<ScannedEntry>,
    tokens: Seq<Token>,
    fmt: Seq<char>,
    k: int,
)
    requires
        0 <= k < resolved_pairs(entries, tokens, fmt).len(),
    ensures
        exists|j: int|
            0 <= j < entries.len() && (#[trigger] entries[j]).exif is Ok && resolved_pairs(
                entries,
                tokens,
                fmt,
            )[k].0 == entries[j].info.path@,
    decreases entries.len(),
{
    let full = resolved_pairs(entries, tokens, fmt);
    let init = resolved_pairs(entries.drop_last(), tokens, fmt);
    if k < init.len() {
        lemma_planned_sources_are_scanned(entries.drop_last(), tokens, fmt, k);
        let j = choose|j: int|
            0 <= j < entries.drop_last().len() && (#[trigger] entries.drop_last()[j]).exif is Ok
                && init[k].0 == entries.drop_last()[j].info.path@;
        assert(entries[j] == entries.drop_last()[j]);
        assert(entries[j].exif is Ok && full[k].0 == entries[j].info.path@);
    } else {
        assert(entries.last().exif is Ok);
        let j = entries.len() - 1;
        assert(entries[j].exif is Ok && full[k].0 == entries[j].info.path@);
    }
}

/// The parent directories of the planned destinations, in plan order, with
/// repetitions; a destination without a parent component contributes none.
pub open spec fn parent_dirs(pairs: Seq<(Seq<char>, Seq<char>)>) -> Seq<Seq<char>>
    decreases pairs.len(),
{
    if pairs.len() == 0 {
        Seq::empty()
    } else {
        let init = parent_dirs(pairs.drop_last());
        match parent_of(pairs.last().1) {
            Some(p) => init.push(p),
            None => init,
        }
    }
}

/// The directories of `dirs` that are not in `existing`, in order.
pub open spec fn missing_dirs(dirs: Seq<Seq<char>>, existing: Seq<Seq<char>>) -> Seq<Seq<char>> {
    dirs.filter(|d: Seq<char>| !existing.contains(d))
}

fn contains_string(v: &Vec<String>, s: &String) -> (r: bool)
    ensures
        r == strs_view(v@).contains(s@),
{
    let n = v.len();
    let mut i: usize = 0;
    while i < n
        invariant
            n == v@.len(),
            0 <= i <= n,
            forall|k: int| 0 <= k < i ==> strs_view(v@)[k] != s@,
        decreases n - i,
    {
        if v[i].eq(s) {
            proof {
                assert(strs_view(v@)[i as int] == s@);
            }
            return true;
        }
        i = i + 1;
    }
    proof {
        if strs_view(v@).contains(s@) {
            let k = choose|k: int| 0 <= k < strs_view(v@).len() && strs_view(v@)[k] == s@;
            assert(strs_view(v@)[k] != s@);
        }
    }
    false
}

impl ExecutionPlan {
    /// Drops from `dirs_to_create` every directory in `existing`, keeping
    /// order; the moves stay as they are.
    pub fn without_existing(self, existing: &Vec<String>) -> (r: ExecutionPlan)
        ensures
            r.moves@ == self.moves@,
            strs_view(r.dirs_to_create@) == missing_dirs(
                strs_view(self.dirs_to_create@),
                strs_view(existing@),
            ),
    {
        let dirs = self.dirs_to_create;
        let mut kept: Vec<String> = Vec::new();
        let n = dirs.len();
        let mut i: usize = 0;
        proof {
            reveal(Seq::filter);
            assert(strs_view(dirs@).subrange(0, 0).len() == 0);
            assert(strs_view(kept@) =~= missing_dirs(
                strs_view(dirs@).subrange(0, 0),
                strs_view(existing@),
            ));
        }
        while i < n
            invariant
                n == dirs@.len(),
                0 <= i <= n,
                strs_view(kept@) == missing_dirs(
                    strs_view(dirs@).subrange(0, i as int),
                    strs_view(existing@),
                ),
            decreases n - i,
        {
            let ghost pre = strs_view(kept@);
            let d = dirs[i].clone();
            let keep = !contains_string(existing, &d);
            if keep {
                kept.push(d);
            }
            proof {
                reveal(Seq::filter);
                let dv = strs_view(dirs@);
                assert(dv.subrange(0, i + 1).drop_last() =~= dv.subrange(0, i as int));
                assert(dv.subrange(0, i + 1).last() == dv[i as int]);
                assert(dv[i as int] == d@);
                if keep {
                    assert(strs_view(kept@) =~= pre.push(d@));
                }
            }
            i = i + 1;
        }
        proof {
            assert(strs_view(dirs@).subrange(0, n as int) =~= strs_view(dirs@));
        }
        ExecutionPlan { dirs_to_create: kept, moves: self.moves }
    }
}

/// After pruning, the directory list holds exactly the parents of planned
/// destinations that are not already present, each once.
pub proof fn lemma_missing_dirs_exact(
    dirs: Seq<Seq<char>>,
    parents: Seq<Seq<char>>,
    existing: Seq<Seq<char>>,
)
    requires
        dirs.to_multiset() == dedup_first(parents).to_multiset(),
    ensures
        missing_dirs(dirs, existing).no_duplicates(),
        forall|x: Seq<char>|
            #[trigger] missing_dirs(dirs, existing).contains(x) <==> (parents.contains(x)
                && !existing.contains(x)),
{
    lemma_dedup_first_no_duplicates(parents);
    dedup_first(parents).lemma_multiset_has_no_duplicates();
    dirs.lemma_multiset_has_no_duplicates_conv();
    assert(dirs.no_duplicates());
    lemma_filter_no_dup(dirs, existing);
    assert forall|x: Seq<char>|
        #[trigger] missing_dirs(dirs, existing).contains(x) <==> (parents.contains(x)
            && !existing.contains(x)) by {
        lemma_filter_elems(dirs, existing, x);
        lemma_dedup_first_contains(parents, x);
        to_multiset_contains(dirs, x);
        to_multiset_contains(dedup_first(parents), x);
        assert(dirs.to_multiset().count(x) == dedup_first(parents).to_multiset().count(x));
        assert(dirs.contains(x) <==> dedup_first(parents).contains(x));
    }
}

proof fn lemma_filter_elems(s: Seq<Seq<char>>, existing: Seq<Seq<char>>, x: Seq<char>)
    ensures
        missing_dirs(s, existing).contains(x) <==> (s.contains(x) && !existing.contains(x)),
    decreases s.len(),
{
    reveal(Seq::filter);
    if s.len() == 0 {
    } else {
        let t = s.drop_last();
        lemma_filter_elems(t, existing, x);
        let ft = missing_dirs(t, existing);
        let fs = missing_dirs(s, existing);
        if s.contains(x) && !existing.contains(x) {
            if x == s.last() {
                assert(fs.last() == x);
            } else {
                let i = choose|i: int| 0 <= i < s.len() && s[i] == x;
                assert(t[i] == x);
                let j = choose|j: int| 0 <= j < ft.len() && ft[j] == x;
                assert(fs[j] == x);
            }
        }
        if fs.contains(x) {
            let i = choose|i: int| 0 <= i < fs.len() && fs[i] == x;
            if i < ft.len() {
                assert(ft[i] == x);
                let j = choose|j: int| 0 <= j < t.len() && t[j] == x;
                assert(s[j] == x);
            } else {
                assert(x == s.last());
                assert(s[s.len() - 1] == x);
            }
        }
    }
}

proof fn lemma_filter_no_dup(s: Seq<Seq<char>>, existing: Seq<Seq<char>>)
    requires
        s.no_duplicates(),
    ensures
        missing_dirs(s, existing).no_duplicates(),
    decreases s.len(),
{
    reveal(Seq::filter);
    if s.len() == 0 {
    } else {
        let t = s.drop_last();
        assert(t.no_duplicates());
        lemma_filter_no_dup(t, existing);
        let ft = missing_dirs(t, existing);
        let fs = missing_dirs(s, existing);
        if !existing.contains(s.last()) {
            assert(!t.contains(s.last())) by {
                if t.contains(s.last()) {
                    let i = choose|i: int| 0 <= i < t.len() && t[i] == s.last();
                    assert(s[i] == s[s.len() - 1]);
                }
            }
            lemma_filter_elems(t, existing, s.last());
            assert(!ft.contains(s.last()));
            assert(fs =~= ft.push(s.last()));
            assert forall|p: int, q: int| 0 <= p < q < fs.len() implies fs[p] != fs[q] by {
                if q < ft.len() {
                    assert(fs[p] == ft[p] && fs[q] == ft[q]);
                } else {
                    assert(fs[q] == s.last());
                    assert(fs[p] == ft[p]);
                    if ft[p] == s.last() {
                        assert(ft.contains(s.last()));
                    }
                }
            }
        }
    }
}

/// Sources and destinations of the planned moves, in plan order.
pub open spec fn sources_of(pairs: Seq<(Seq<char>, Seq<char>)>) -> Seq<Seq<char>> {
    pairs.map_values(|p: (Seq<char>, Seq<char>)| p.0)
}

/// See `sources_of`.
pub open spec fn dests_of(pairs: Seq<(Seq<char>, Seq<char>)>) -> Seq<Seq<char>> {
    pairs.map_values(|p: (Seq<char>, Seq<char>)| p.1)
}

/// Some planned destination is the empty string.
pub open spec fn has_empty_dest(pairs: Seq<(Seq<char>, Seq<char>)>) -> bool {
    exists|i: int| 0 <= i < pairs.len() && (#[trigger] pairs[i]).1.len() == 0
}

/// The validation error for an empty destination.
pub open spec fn empty_target_msg() -> Seq<char> {
    "Found an empty target."@
}

/// The validation error for colliding destinations, carrying both distinct
/// counts.
pub open spec fn count_mismatch_msg(sources: nat, targets: nat) -> Seq<char> {
    "Source and target file counts aren't equal: "@ + dec_rep(sources)
        + " file(s) for source, "@ + dec_rep(targets) + " file(s) for target."@
}

/// When two sources of a plan with distinct sources map to one destination,
/// the distinct-destination count falls short of the distinct-source count,
/// so validation reports the mismatch.
pub proof fn lemma_collision_forces_count_mismatch(
    pairs: Seq<(Seq<char>, Seq<char>)>,
    i: int,
    j: int,
)
    requires
        sources_of(pairs).no_duplicates(),
        0 <= i < j < pairs.len(),
        pairs[i].1 == pairs[j].1,
    ensures
        dedup_first(dests_of(pairs)).len() < dedup_first(sources_of(pairs)).len(),
{
    lemma_dedup_first_distinct_id(sources_of(pairs));
    assert(dests_of(pairs)[i] == pairs[i].1);
    assert(dests_of(pairs)[j] == pairs[j].1);
    lemma_dedup_first_dup_shrinks(dests_of(pairs), i, j);
}

/// The message of `explain`: how many directories a plan creates and how
/// many files it moves.
pub open spec fn explain_msg(dirs: nat, moves: nat) -> Seq<char> {
    "This will create "@ + dec_rep(dirs) + " dir(s) and move "@ + dec_rep(moves) + " file(s)"@
}

/// Plans, validates and explains moves against one token registry.
pub struct Executor {
    registry: Registry,
}

impl View for Executor {
    type V = Seq<Token>;

    closed spec fn view(&self) -> Seq<Token> {
        self.registry@
    }
}

impl Executor {
    /// An executor over the given registry.
    pub fn new(registry: Registry) -> (r: Executor)
        ensures
            r@ == registry@,
    {
        Executor { registry }
    }

    /// Plans the moves for the scanned entries: resolves the template for
    /// every entry whose metadata was decoded, sorts the pairs by source
    /// path, and lists the destinations' parent directories, first
    /// occurrences only, sorted. Pruning directories that already exist is
    /// `ExecutionPlan::without_existing`.
    pub fn plan(&self, entries: &Vec<ScannedEntry>, fmt: &str) -> (r: ExecutionPlan)
        ensures
            sorted_by_source(moves_view(r.moves@)),
            moves_view(r.moves@).to_multiset() == resolved_pairs(
                entries@,
                self@,
                fmt@,
            ).to_multiset(),
            sorted_lex(strs_view(r.dirs_to_create@)),
            strs_view(r.dirs_to_create@).to_multiset() == dedup_first(
                parent_dirs(moves_view(r.moves@)),
            ).to_multiset(),
    {
        let mut resolved: Vec<(String, String)> = Vec::new();
        let n = entries.len();
        let mut i: usize = 0;
        proof {
            assert(entries@.subrange(0, 0).len() == 0);
            assert(moves_view(resolved@) =~= resolved_pairs(entries@.subrange(0, 0), self@, fmt@));
        }
        while i < n
            invariant
                n == entries@.len(),
                0 <= i <= n,
                moves_view(resolved@) == resolved_pairs(
                    entries@.subrange(0, i as int),
                    self@,
                    fmt@,
                ),
            decreases n - i,
        {
            let ghost pre = moves_view(resolved@);
            let e = &entries[i];
            match self.registry.format(fmt, &e.info, &e.exif) {
                Ok(dest) => {
                    let ghost dv = dest@;
                    resolved.push((e.info.path.clone(), dest));
                    proof {
                        assert(moves_view(resolved@) =~= pre.push((e.info.path@, dv)));
                    }
                },
                Err(_) => {},
            }
            proof {
                let sub1 = entries@.subrange(0, i + 1);
                assert(sub1.drop_last() =~= entries@.subrange(0, i as int));
                assert(sub1.last() == entries@[i as int]);
            }
            i = i + 1;
        }
        proof {
            assert(entries@.subrange(0, n as int) =~= entries@);
        }
        let moves = sort_moves(resolved);
        let mut parents: Vec<String> = Vec::new();
        let mn = moves.len();
        let mut j: usize = 0;
        proof {
            assert(moves_view(moves@).subrange(0, 0).len() == 0);
            assert(strs_view(parents@) =~= parent_dirs(moves_view(moves@).subrange(0, 0)));
        }
        while j < mn
            invariant
                mn == moves@.len(),
                0 <= j <= mn,
                strs_view(parents@) == parent_dirs(moves_view(moves@).subrange(0, j as int)),
            decreases mn - j,
        {
            let ghost pre = strs_view(parents@);
            let m = &moves[j];
            proof {
                assert(moves_view(moves@)[j as int].1 == m.1@);
            }
            match parent_str(m.1.as_str()) {
                Some(p) => {
                    let ghost pv = p@;
                    parents.push(p);
                    proof {
                        assert(strs_view(parents@) =~= pre.push(pv));
                    }
                },
                None => {},
            }
            proof {
                let pv = moves_view(moves@);
                assert(pv.subrange(0, j + 1).drop_last() =~= pv.subrange(0, j as int));
                assert(pv.subrange(0, j + 1).last() == pv[j as int]);
            }
            j = j + 1;
        }
        proof {
            assert(moves_view(moves@).subrange(0, mn as int) =~= moves_view(moves@));
        }
        let uniq = unique_strings(&parents);
        let dirs = sort_strings(uniq);
        ExecutionPlan { dirs_to_create: dirs, moves }
    }

    /// Validates a plan: an empty destination fails first; then the count of
    /// distinct sources must equal the count of distinct destinations, a
    /// necessary (not sufficient) check against destination collisions.
    pub fn validate(&self, plan: &ExecutionPlan) -> (r: Result<bool, String>)
        ensures
            ({
                let pairs = moves_view(plan.moves@);
                let sc = dedup_first(sources_of(pairs)).len();
                let tc = dedup_first(dests_of(pairs)).len();
                &&& (has_empty_dest(pairs) ==> (r matches Err(m) && m@ == empty_target_msg()))
                &&& (!has_empty_dest(pairs) && sc == tc ==> r == Ok::<bool, String>(true))
                &&& (!has_empty_dest(pairs) && sc != tc ==> (r matches Err(m) && m@
                    == count_mismatch_msg(sc, tc)))
            }),
    {
        let n = plan.moves.len();
        let mut i: usize = 0;
        while i < n
            invariant
                n == plan.moves@.len(),
                0 <= i <= n,
                forall|k: int| 0 <= k < i ==> (#[trigger] moves_view(plan.moves@)[k]).1.len() != 0,
            decreases n - i,
        {
            if plan.moves[i].1.as_str().is_empty() {
                proof {
                    assert((moves_view(plan.moves@)[i as int]).1.len() == 0);
                }
                return Err("Found an empty target.".to_owned());
            }
            proof {
                assert((moves_view(plan.moves@)[i as int]).1 == plan.moves@[i as int].1@);
            }
            i = i + 1;
        }
        proof {
            if has_empty_dest(moves_view(plan.moves@)) {
                let k = choose|k: int|
                    0 <= k < moves_view(plan.moves@).len() && (#[trigger] moves_view(
                        plan.moves@,
                    )[k]).1.len() == 0;
                assert((moves_view(plan.moves@)[k]).1.len() != 0);
            }
        }
        let mut sources: Vec<String> = Vec::new();
        let mut dests: Vec<String> = Vec::new();
        let mut j: usize = 0;
        while j < n
            invariant
                n == plan.moves@.len(),
                0 <= j <= n,
                sources@.len() == j,
                dests@.len() == j,
                forall|k: int| 0 <= k < j ==> (#[trigger] sources@[k])@ == plan.moves@[k].0@,
                forall|k: int| 0 <= k < j ==> (#[trigger] dests@[k])@ == plan.moves@[k].1@,
            decreases n - j,
        {
            sources.push(plan.moves[j].0.clone());
            dests.push(plan.moves[j].1.clone());
            j = j + 1;
        }
        proof {
            assert(strs_view(sources@) =~= sources_of(moves_view(plan.moves@)));
            assert(strs_view(dests@) =~= dests_of(moves_view(plan.moves@)));
        }
        let us = unique_strings(&sources);
        let ud = unique_strings(&dests);
        let sc = us.len();
        let tc = ud.len();
        proof {
            assert(sc == dedup_first(sources_of(moves_view(plan.moves@))).len());
            assert(tc == dedup_first(dests_of(moves_view(plan.moves@))).len());
        }
        if sc == tc {
            return Ok(true);
        }
        let mut msg = "Source and target file counts aren't equal: ".to_owned();
        append_dec(&mut msg, sc as u64);
        msg.append(" file(s) for source, ");
        append_dec(&mut msg, tc as u64);
        msg.append(" file(s) for target.");
        proof {
            assert(msg@ =~= count_mismatch_msg(sc as nat, tc as nat));
        }
        Err(msg)
    }

    /// A one-line human-readable summary of a plan.
    pub fn explain(&self, plan: &ExecutionPlan) -> (r: String)
        ensures
            r@ == explain_msg(plan.dirs_to_create@.len(), plan.moves@.len()),
    {
        let mut msg = "This will create ".to_owned();
        append_dec(&mut msg, plan.dirs_to_create.len() as u64);
        msg.append(" dir(s) and move ");
        append_dec(&mut msg, plan.moves.len() as u64);
        msg.append(" file(s)");
        proof {
            assert(msg@ =~= explain_msg(plan.dirs_to_create@.len(), plan.moves@.len()));
        }
        msg
    }
}

} // verus!

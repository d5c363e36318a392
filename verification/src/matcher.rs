//! Matching snapshot records against a target executable name.
//!
//! Normalization, applied to the target: strip any directory path —
//! trailing separators are ignored, only the final path component counts —
//! then case-fold.  Record names are
//! case-folded as well.  A record matches when its folded name equals the
//! folded target, equals the folded target with `.exe` appended, or — as a
//! deliberately permissive fallback — contains the folded target as a
//! substring.  An empty target matches nothing.

use vstd::prelude::*;

use crate::process::ProcessRecord;
use crate::process::contains_pid;

verus! {

/// What `str::to_lowercase` returns for a sequence of characters.  The
/// lowercase mapping is a function of the characters alone, so it only
/// gets a name here; no contract states what it is on given values.
pub uninterp spec fn lower_of(s: Seq<char>) -> Seq<char>;

/// Relies on `str::to_lowercase`: the result depends on the characters
/// alone, and an empty string stays empty.
#[verifier::external_body]
fn fold_case(s: &Vec<char>) -> (r: Vec<char>)
    ensures
        r@ == lower_of(s@),
        s@.len() == 0 ==> r@.len() == 0,
{
    let owned: String = s.iter().collect();
    owned.to_lowercase().chars().collect()
}

/// Collects the characters of a string slice into a vector.
pub fn chars_vec(s: &str) -> (v: Vec<char>)
    ensures
        v@ == s@,
{
    let mut v: Vec<char> = Vec::new();
    for c in it: s.chars()
        invariant
            it.seq() == s@,
            v@ == it.seq().take(it.index()),
    {
        v.push(c);
    }
    proof {
        assert(v@ =~= s@);
    }
    v
}

/// A directory separator.  Both kinds are accepted in a target, since the
/// platform accepts either in a path.
pub open spec fn is_path_sep(c: char) -> bool {
    c == '/' || c == '\\'
}

/// The name with its trailing directory separators removed.
pub open spec fn strip_trailing_seps(s: Seq<char>) -> Seq<char>
    decreases s.len(),
{
    if s.len() == 0 {
        s
    } else if is_path_sep(s.last()) {
        strip_trailing_seps(s.drop_last())
    } else {
        s
    }
}

/// Everything after the last directory separator, or the whole name when
/// it has none.
pub open spec fn after_last_sep(s: Seq<char>) -> Seq<char>
    decreases s.len(),
{
    if s.len() == 0 {
        Seq::empty()
    } else if is_path_sep(s.last()) {
        Seq::empty()
    } else {
        after_last_sep(s.drop_last()).push(s.last())
    }
}

/// The final path component: trailing separators are ignored, then
/// everything after the last remaining separator is the name — so
/// a path to a directory yields the directory's own name, and a name made
/// of separators alone yields the empty component.
pub open spec fn basename(s: Seq<char>) -> Seq<char> {
    after_last_sep(strip_trailing_seps(s))
}

/// Cutting the trailing separators off is taking the prefix that ends at
/// the last non-separator.
proof fn lemma_strip_is_take(s: Seq<char>, end: int)
    requires
        0 <= end <= s.len(),
        forall|j: int| end <= j < s.len() ==> is_path_sep(s[j]),
        end > 0 ==> !is_path_sep(s[end - 1]),
    ensures
        strip_trailing_seps(s) == s.take(end),
    decreases s.len() - end,
{
    if end == s.len() {
        if s.len() == 0 {
            assert(strip_trailing_seps(s) =~= s.take(end));
        } else {
            assert(!is_path_sep(s.last()));
            assert(strip_trailing_seps(s) =~= s.take(end));
        }
    } else {
        assert(is_path_sep(s.last()));
        lemma_strip_is_take(s.drop_last(), end);
        assert(s.drop_last().take(end) =~= s.take(end));
    }
}

/// A suffix that starts right after a separator (or spans the whole name)
/// and contains none itself is everything after the last separator.
proof fn lemma_after_last_sep_is_suffix(s: Seq<char>, i: int)
    requires
        0 <= i <= s.len(),
        forall|j: int| i <= j < s.len() ==> !is_path_sep(s[j]),
        i > 0 ==> is_path_sep(s[i - 1]),
    ensures
        after_last_sep(s) == s.subrange(i, s.len() as int),
    decreases s.len() - i,
{
    if i == s.len() {
        if s.len() == 0 {
            assert(after_last_sep(s) =~= s.subrange(i, s.len() as int));
        } else {
            assert(is_path_sep(s.last()));
            assert(after_last_sep(s) =~= s.subrange(i, s.len() as int));
        }
    } else {
        assert(!is_path_sep(s.last()));
        lemma_after_last_sep_is_suffix(s.drop_last(), i);
        assert(s.drop_last().subrange(i, s.drop_last().len() as int).push(s.last()) =~= s.subrange(
            i,
            s.len() as int,
        ));
    }
}

/// Classifies one character as a directory separator, exactly as
/// `is_path_sep` states.
fn is_sep_char(c: char) -> (r: bool)
    ensures
        r == is_path_sep(c),
{
    c == '/' || c == '\\'
}

/// Computes the final path component of a name.
pub fn basename_chars(s: &Vec<char>) -> (r: Vec<char>)
    ensures
        r@ == basename(s@),
{
    let n = s.len();
    let mut end: usize = n;
    while end > 0 && is_sep_char(s[end - 1])
        invariant
            end <= n,
            n == s@.len(),
            forall|j: int| end <= j < n ==> is_path_sep(s@[j]),
        decreases end,
    {
        end = end - 1;
    }
    let mut start: usize = 0;
    let mut i: usize = 0;
    while i < end
        invariant
            start <= i <= end <= n,
            n == s@.len(),
            forall|j: int| start <= j < i ==> !is_path_sep(s@[j]),
            start > 0 ==> is_path_sep(s@[start - 1]),
        decreases end - i,
    {
        if is_sep_char(s[i]) {
            start = i + 1;
        }
        i = i + 1;
    }
    let mut r: Vec<char> = Vec::new();
    let mut j: usize = start;
    while j < end
        invariant
            start <= j <= end <= n,
            n == s@.len(),
            r@ == s@.subrange(start as int, j as int),
        decreases end - j,
    {
        r.push(s[j]);
        proof {
            assert(r@ =~= s@.subrange(start as int, j + 1));
        }
        j = j + 1;
    }
    proof {
        lemma_strip_is_take(s@, end as int);
        let t = s@.take(end as int);
        lemma_after_last_sep_is_suffix(t, start as int);
        assert(t.subrange(start as int, t.len() as int) =~= s@.subrange(start as int, end as int));
    }
    r
}

/// The four characters of the conventional executable suffix.
pub open spec fn exe_suffix() -> Seq<char> {
    seq!['.', 'e', 'x', 'e']
}

/// The target with the executable suffix appended, unless it already ends
/// in it.
pub open spec fn with_exe(t: Seq<char>) -> Seq<char> {
    if t.len() >= 4 && t.subrange(t.len() - 4, t.len() as int) == exe_suffix() {
        t
    } else {
        t + exe_suffix()
    }
}

/// `needle` occurs in `hay` as a contiguous run.
pub open spec fn contains_seq(hay: Seq<char>, needle: Seq<char>) -> bool {
    exists|i: int|
        0 <= i <= hay.len() - needle.len() && #[trigger] hay.subrange(i, i + needle.len())
            == needle
}

/// A case-folded record name matches a case-folded, path-stripped target.
/// In priority order: exact equality, equality after appending `.exe` to a
/// target that lacks it, or — the permissive fallback — the target as a
/// substring of the name.  An empty target matches nothing, even a record
/// whose own name is empty: the fallback must not degenerate to matching
/// every process.
pub open spec fn record_matches(name: Seq<char>, target: Seq<char>) -> bool {
    &&& target.len() > 0
    &&& {
        ||| name == target
        ||| name == with_exe(target)
        ||| contains_seq(name, target)
    }
}

/// Record `j` carries process ID `p` and matches the normalized target.
pub open spec fn record_matches_at(
    records: Seq<ProcessRecord>,
    target: Seq<char>,
    j: int,
    p: u32,
) -> bool {
    &&& 0 <= j < records.len()
    &&& records[j].pid == p
    &&& record_matches(lower_of(records[j].executable_name@), lower_of(basename(target)))
}

/// The set of process IDs whose records match a target executable name,
/// after both sides are normalized.
pub open spec fn matching_pids(records: Seq<ProcessRecord>, target: Seq<char>) -> Set<u32> {
    Set::new(|p: u32| exists|j: int| record_matches_at(records, target, j, p))
}

/// Compares two character vectors for equality of their contents.
pub fn chars_equal(a: &Vec<char>, b: &Vec<char>) -> (r: bool)
    ensures
        r == (a@ == b@),
{
    if a.len() != b.len() {
        return false;
    }
    let mut i: usize = 0;
    while i < a.len()
        invariant
            i <= a@.len(),
            a@.len() == b@.len(),
            forall|j: int| 0 <= j < i ==> a@[j] == b@[j],
        decreases a@.len() - i,
    {
        if a[i] != b[i] {
            return false;
        }
        i = i + 1;
    }
    proof {
        assert(a@ =~= b@);
    }
    true
}

/// Decides whether `needle` occurs in `hay` at offset `at`.
fn matches_at(hay: &Vec<char>, needle: &Vec<char>, at: usize) -> (r: bool)
    requires
        at + needle@.len() <= hay@.len(),
    ensures
        r == (hay@.subrange(at as int, at as int + needle@.len() as int) == needle@),
{
    let hay_len = hay.len();
    let mut i: usize = 0;
    while i < needle.len()
        invariant
            i <= needle@.len(),
            at + needle@.len() <= hay@.len(),
            hay_len == hay@.len(),
            forall|j: int| 0 <= j < i ==> hay@[at + j] == needle@[j],
        decreases needle@.len() - i,
    {
        if hay[at + i] != needle[i] {
            proof {
                assert(hay@.subrange(at as int, at as int + needle@.len() as int)[i as int]
                    != needle@[i as int]);
            }
            return false;
        }
        i = i + 1;
    }
    proof {
        assert(hay@.subrange(at as int, at as int + needle@.len() as int) =~= needle@);
    }
    true
}

/// Decides whether `needle` occurs anywhere in `hay`.
pub fn contains_chars(hay: &Vec<char>, needle: &Vec<char>) -> (r: bool)
    ensures
        r == contains_seq(hay@, needle@),
{
    if needle.len() > hay.len() {
        return false;
    }
    let last = hay.len() - needle.len();
    let mut i: usize = 0;
    loop
        invariant
            i <= last,
            last == hay@.len() - needle@.len(),
            needle@.len() <= hay@.len(),
            forall|j: int|
                0 <= j < i ==> #[trigger] hay@.subrange(j, j + needle@.len() as int) != needle@,
        decreases last - i,
    {
        if matches_at(hay, needle, i) {
            return true;
        }
        if i == last {
            proof {
                assert(forall|j: int|
                    0 <= j <= last ==> #[trigger] hay@.subrange(j, j + needle@.len() as int)
                        != needle@);
            }
            return false;
        }
        i = i + 1;
    }
}

/// Decides whether a folded name matches a folded target, exactly as
/// `record_matches` states.  This is where a concrete pair of names meets
/// the matching rule; the folding itself happens in the callers.
pub fn matches_folded(name: &Vec<char>, target: &Vec<char>) -> (r: bool)
    ensures
        r == record_matches(name@, target@),
{
    if target.len() == 0 {
        return false;
    }
    if chars_equal(name, target) {
        return true;
    }
    let ends_exe = target_ends_in_exe(target);
    if !ends_exe {
        if name.len() >= 4 && name.len() - 4 == target.len() && matches_at(name, target, 0)
            && has_exe_at(name, target.len()) {
            proof {
                assert(name@.subrange(0, target@.len() as int) == target@);
                assert(name@.subrange(target@.len() as int, name@.len() as int) == exe_suffix());
                assert(name@ =~= target@ + exe_suffix());
            }
            return true;
        }
    }
    proof {
        if name@ == with_exe(target@) {
            if ends_exe {
                assert(with_exe(target@) == target@);
            } else {
                assert(with_exe(target@) == target@ + exe_suffix());
                assert((target@ + exe_suffix()).len() == target@.len() + 4);
                assert(name@.subrange(0, target@.len() as int) =~= target@);
                assert(name@.subrange(target@.len() as int, name@.len() as int) =~= exe_suffix());
            }
        }
    }
    contains_chars(name, target)
}

/// Decides whether the target already ends in the executable suffix.
fn target_ends_in_exe(target: &Vec<char>) -> (r: bool)
    ensures
        r == (target@.len() >= 4 && target@.subrange(target@.len() - 4, target@.len() as int)
            == exe_suffix()),
{
    if target.len() < 4 {
        return false;
    }
    let r = has_exe_at(target, target.len() - 4);
    r
}

/// Decides whether the executable suffix sits at offset `at`, which must
/// be exactly four characters from the end.
fn has_exe_at(v: &Vec<char>, at: usize) -> (r: bool)
    requires
        at + 4 == v@.len(),
    ensures
        r == (v@.subrange(at as int, v@.len() as int) == exe_suffix()),
{
    let n = v.len();
    let r = v[at] == '.' && v[at + 1] == 'e' && v[at + 2] == 'x' && v[at + 3] == 'e';
    proof {
        let sub = v@.subrange(at as int, v@.len() as int);
        assert(sub.len() == 4);
        assert(sub[0] == v@[at as int]);
        assert(sub[1] == v@[at + 1]);
        assert(sub[2] == v@[at + 2]);
        assert(sub[3] == v@[at + 3]);
        if r {
            assert(sub =~= exe_suffix());
        } else {
            assert(sub != exe_suffix());
        }
    }
    r
}

/// Errors of the matcher.
#[derive(Clone, Copy, Debug, PartialEq, Eq, Structural)]
pub enum MatchError {
    /// No record of the snapshot matches the target name.
    NoProcessesMatched,
}

/// Collects the IDs of all processes whose executable name matches
/// `target_exe`, one ID each however many records match it.  The target is
/// normalized first: its directory path is stripped and it is case-folded;
/// record names are case-folded too.  An empty target yields an empty
/// result, never all processes.  An empty result is not an error: it
/// signals "no matches" and the caller decides whether that is fatal.
pub fn pids_by_exe_name(records: &Vec<ProcessRecord>, target_exe: &str) -> (pids: Vec<u32>)
    ensures
        pids@.no_duplicates(),
        forall|p: u32|
            #[trigger] pids@.contains(p) <==> matching_pids(records@, target_exe@).contains(p),
        target_exe@.len() == 0 ==> pids@.len() == 0,
{
    let tchars = chars_vec(target_exe);
    let base = basename_chars(&tchars);
    let folded_target = fold_case(&base);
    let mut pids: Vec<u32> = Vec::new();
    let mut i: usize = 0;
    while i < records.len()
        invariant
            i <= records@.len(),
            folded_target@ == lower_of(basename(target_exe@)),
            target_exe@.len() == 0 ==> folded_target@.len() == 0,
            pids@.no_duplicates(),
            forall|p: u32|
                #[trigger] pids@.contains(p) <==> exists|j: int|
                    j < i && record_matches_at(records@, target_exe@, j, p),
        decreases records@.len() - i,
    {
        let pid = records[i].pid;
        let nchars = chars_vec(records[i].executable_name.as_str());
        let folded_name = fold_case(&nchars);
        let is_match = matches_folded(&folded_name, &folded_target);
        let ghost old_pids = pids@;
        if is_match {
            let present = contains_pid(&pids, pid);
            if !present {
                pids.push(pid);
            }
        }
        proof {
            if is_match && !old_pids.contains(pid) {
                assert(pids@ == old_pids.push(pid));
                assert(pids@.no_duplicates()) by {
                    assert(forall|k: int| 0 <= k < old_pids.len() ==> old_pids[k] != pid);
                }
            } else {
                assert(pids@ == old_pids);
            }
            assert forall|p: u32| #[trigger] pids@.contains(p) implies exists|j: int|
                j < i + 1 && record_matches_at(records@, target_exe@, j, p) by {
                if old_pids.contains(p) {
                    let j = choose|j: int| j < i && record_matches_at(records@, target_exe@, j, p);
                    assert(j < i + 1 && record_matches_at(records@, target_exe@, j, p));
                } else {
                    assert(p == pid && is_match);
                    assert(record_matches_at(records@, target_exe@, i as int, p));
                }
            }
            assert forall|p: u32|
                (exists|j: int|
                    j < i + 1 && record_matches_at(records@, target_exe@, j, p)) implies #[trigger] pids@.contains(
                p,
            ) by {
                let j = choose|j: int| j < i + 1 && record_matches_at(records@, target_exe@, j, p);
                if j < i {
                    assert(old_pids.contains(p));
                    if pids@ != old_pids {
                        assert(pids@ == old_pids.push(pid));
                        assert(pids@[choose|k: int|
                            0 <= k < old_pids.len() && old_pids[k] == p] == p);
                    }
                } else {
                    assert(p == pid && is_match);
                    if old_pids.contains(pid) {
                        if pids@ != old_pids {
                            assert(pids@ == old_pids.push(pid));
                        }
                        assert(pids@.contains(pid));
                    } else {
                        assert(pids@ == old_pids.push(pid));
                        assert(pids@[pids@.len() - 1] == pid);
                    }
                }
            }
        }
        i = i + 1;
    }
    proof {
        if target_exe@.len() == 0 {
            assert(lower_of(basename(target_exe@)).len() == 0);
            if pids@.len() > 0 {
                assert(pids@.contains(pids@[0]));
            }
        }
    }
    pids
}

/// Resolves a name to the set of matching process IDs, reporting an empty
/// match set as `NoProcessesMatched` for callers that treat it as fatal.
pub fn find_processes_by_name(records: &Vec<ProcessRecord>, name: &str) -> (r: Result<
    Vec<u32>,
    MatchError,
>)
    ensures
        match r {
            Ok(pids) => {
                &&& pids@.len() > 0
                &&& pids@.no_duplicates()
                &&& forall|p: u32|
                    #[trigger] pids@.contains(p) <==> matching_pids(records@, name@).contains(p)
            },
            Err(e) => {
                &&& e == MatchError::NoProcessesMatched
                &&& forall|p: u32| !matching_pids(records@, name@).contains(p)
            },
        },
{
    let pids = pids_by_exe_name(records, name);
    if pids.len() == 0 {
        proof {
            assert forall|p: u32| !matching_pids(records@, name@).contains(p) by {
                assert(!pids@.contains(p));
            }
        }
        Err(MatchError::NoProcessesMatched)
    } else {
        Ok(pids)
    }
}

/// Law: the match result depends only on the normalized target.  Two
/// targets with the same case-folded final path component — in particular
/// two spellings of one name that differ only in letter case, or in a
/// leading directory path — match exactly the same processes.
pub proof fn lemma_match_depends_only_on_normalized_target(
    records: Seq<ProcessRecord>,
    t1: Seq<char>,
    t2: Seq<char>,
)
    requires
        lower_of(basename(t1)) == lower_of(basename(t2)),
    ensures
        matching_pids(records, t1) =~= matching_pids(records, t2),
{
    assert forall|p: u32|
        matching_pids(records, t1).contains(p) implies matching_pids(records, t2).contains(p) by {
        let j = choose|j: int| record_matches_at(records, t1, j, p);
        assert(record_matches_at(records, t2, j, p));
    }
    assert forall|p: u32|
        matching_pids(records, t2).contains(p) implies matching_pids(records, t1).contains(p) by {
        let j = choose|j: int| record_matches_at(records, t2, j, p);
        assert(record_matches_at(records, t1, j, p));
    }
}

/// Law: stripping a directory prefix from the target changes nothing: a
/// target that is a separator-free name under any directory path matches
/// exactly what the bare name matches.
pub proof fn lemma_match_ignores_target_directory(
    records: Seq<ProcessRecord>,
    dir: Seq<char>,
    name: Seq<char>,
)
    requires
        dir.len() == 0 || is_path_sep(dir.last()),
        name.len() > 0,
        forall|j: int| 0 <= j < name.len() ==> !is_path_sep(name[j]),
    ensures
        matching_pids(records, dir + name) =~= matching_pids(records, name),
{
    lemma_basename_strips_directory(dir, name);
    lemma_basename_strips_directory(Seq::empty(), name);
    assert(Seq::empty() + name =~= name);
    lemma_match_depends_only_on_normalized_target(records, dir + name, name);
}

/// A nonempty separator-free name after a directory prefix (empty, or
/// ending in a separator) is its own basename.  A nonempty prefix before
/// an *empty* name is excluded: there the final path component is the
/// directory's own name, not the empty one.
pub proof fn lemma_basename_strips_directory(dir: Seq<char>, name: Seq<char>)
    requires
        dir.len() == 0 || is_path_sep(dir.last()),
        name.len() > 0,
        forall|j: int| 0 <= j < name.len() ==> !is_path_sep(name[j]),
    ensures
        basename(dir + name) == name,
{
    let s = dir + name;
    assert(s.last() == name.last());
    assert(!is_path_sep(s.last()));
    assert(strip_trailing_seps(s) == s);
    assert(forall|j: int| dir.len() <= j < s.len() ==> !is_path_sep(s[j]));
    lemma_after_last_sep_is_suffix(s, dir.len() as int);
    assert(s.subrange(dir.len() as int, s.len() as int) =~= name);
}

} // verus!


//! Process snapshot rows: the record type one snapshot pass produces, the
//! decoding of fixed-size wide-character name buffers, and name lookup by
//! process ID.

use vstd::prelude::*;

verus! {

/// One row of a process snapshot: a process, its parent, and the name of
/// its executable.  Many records may share an executable name.  A record
/// lives only as long as the snapshot it was captured in.
#[derive(Clone, Debug)]
pub struct ProcessRecord {
    pub pid: u32,
    pub parent_pid: u32,
    pub executable_name: String,
}

/// Errors of the snapshot lookups.
#[derive(Clone, Copy, Debug, PartialEq, Eq, Structural)]
pub enum LookupError {
    /// No record of the snapshot carries the requested process ID.
    ProcessNotFound,
}

/// What `String::from_utf16_lossy` returns for a sequence of UTF-16 code
/// units.  The decoding is a function of the units alone, so it only gets
/// a name here; no contract states what it is on given values.
pub uninterp spec fn utf16_lossy_of(units: Seq<u16>) -> Seq<char>;

/// The length of a wide-character buffer up to (excluding) its first NUL
/// unit, or the whole length if no unit is NUL.
pub open spec fn wide_prefix_len(buf: Seq<u16>) -> int
    decreases buf.len(),
{
    if buf.len() == 0 {
        0
    } else if buf[0] == 0 {
        0
    } else {
        1 + wide_prefix_len(buf.drop_first())
    }
}

proof fn lemma_wide_prefix_len(buf: Seq<u16>, n: int)
    requires
        0 <= n <= buf.len(),
        forall|j: int| 0 <= j < n ==> buf[j] != 0,
        n < buf.len() ==> buf[n] == 0,
    ensures
        wide_prefix_len(buf) == n,
    decreases n,
{
    if n == 0 {
    } else {
        assert(buf[0] != 0);
        lemma_wide_prefix_len(buf.drop_first(), n - 1);
    }
}

/// Relies on `String::from_utf16_lossy`: the decoding depends on the code
/// units alone, invalid data is replaced rather than rejected.
#[verifier::external_body]
fn decode_utf16_lossy(units: &Vec<u16>) -> (s: String)
    ensures
        s@ == utf16_lossy_of(units@),
{
    String::from_utf16_lossy(units.as_slice())
}

/// Decodes a fixed-size wide-character name buffer as the snapshot
/// facility fills it: the name runs up to the first NUL unit (or the whole
/// buffer if none), decoded as UTF-16 with lossy replacement.
pub fn widestr_to_string(buf: &Vec<u16>) -> (s: String)
    ensures
        s@ == utf16_lossy_of(buf@.take(wide_prefix_len(buf@))),
{
    let mut n: usize = 0;
    while n < buf.len() && *buf.get(n).unwrap() != 0
        invariant
            n <= buf@.len(),
            forall|j: int| 0 <= j < n ==> buf@[j] != 0,
        decreases buf@.len() - n,
    {
        n = n + 1;
    }
    proof {
        lemma_wide_prefix_len(buf@, n as int);
    }
    let mut prefix: Vec<u16> = Vec::new();
    let mut j: usize = 0;
    while j < n
        invariant
            j <= n <= buf@.len(),
            prefix@ == buf@.take(j as int),
        decreases n - j,
    {
        prefix.push(buf[j]);
        proof {
            assert(prefix@ =~= buf@.take(j + 1));
        }
        j = j + 1;
    }
    decode_utf16_lossy(&prefix)
}

/// Decides whether a process ID occurs in a list of pids.
pub fn contains_pid(pids: &Vec<u32>, pid: u32) -> (r: bool)
    ensures
        r == pids@.contains(pid),
{
    let mut i: usize = 0;
    while i < pids.len()
        invariant
            i <= pids@.len(),
            forall|j: int| 0 <= j < i ==> pids@[j] != pid,
        decreases pids@.len() - i,
    {
        if pids[i] == pid {
            return true;
        }
        i = i + 1;
    }
    false
}

/// The executable name of the first record with the given process ID, if
/// any record carries it.
pub open spec fn first_record_name(records: Seq<ProcessRecord>, pid: u32) -> Option<Seq<char>>
    decreases records.len(),
{
    if records.len() == 0 {
        None
    } else if records[0].pid == pid {
        Some(records[0].executable_name@)
    } else {
        first_record_name(records.drop_first(), pid)
    }
}

proof fn lemma_first_record_name_step(records: Seq<ProcessRecord>, pid: u32, i: int)
    requires
        0 <= i < records.len(),
        records[i].pid != pid,
    ensures
        first_record_name(records.skip(i), pid) == first_record_name(records.skip(i + 1), pid),
{
    assert(records.skip(i).drop_first() =~= records.skip(i + 1));
    assert(records.skip(i)[0] == records[i]);
}

/// Scans one snapshot for the given process ID and returns the executable
/// name of the first record that carries it; a pid no record carries is
/// reported as `ProcessNotFound`.
pub fn get_process_name_by_pid(records: &Vec<ProcessRecord>, pid: u32) -> (r: Result<
    String,
    LookupError,
>)
    ensures
        match r {
            Ok(name) => first_record_name(records@, pid) == Some(name@),
            Err(e) => {
                &&& e == LookupError::ProcessNotFound
                &&& first_record_name(records@, pid) is None
            },
        },
{
    proof {
        assert(records@.skip(0) =~= records@);
    }
    let mut i: usize = 0;
    while i < records.len()
        invariant
            i <= records@.len(),
            first_record_name(records@, pid) == first_record_name(records@.skip(i as int), pid),
        decreases records@.len() - i,
    {
        if records[i].pid == pid {
            proof {
                assert(records@.skip(i as int)[0] == records@[i as int]);
            }
            return Ok(records[i].executable_name.clone());
        }
        proof {
            lemma_first_record_name_step(records@, pid, i as int);
        }
        i = i + 1;
    }
    proof {
        assert(records@.skip(records@.len() as int) =~= Seq::<ProcessRecord>::empty());
    }
    Err(LookupError::ProcessNotFound)
}

} // verus!

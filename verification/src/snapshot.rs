//! The records a snapshot is written as: a table, a key and a framed message.
use crate::wire::unframed;
use vstd::prelude::*;

verus! {

/// One record of a snapshot.
#[derive(Debug)]
pub struct SnapshotRecord {
    pub tree: String,
    pub key: Vec<u8>,
    pub value: Vec<u8>,
    pub op_type: u32,
}

/// Why a snapshot record was refused.
#[derive(PartialEq, Eq, Structural, Clone, Copy, Debug)]
pub enum SnapshotError {
    /// Its value is not a framed message of the table's kind.
    Unreadable,
}

/// The table jobs are kept in (applications are kept there too).
pub open spec fn job_table() -> Seq<char> {
    "T_JOB"@
}

/// The table task runs are kept in.
pub open spec fn job_task_table() -> Seq<char> {
    "T_JOB_TASK"@
}

/// The table namespaces are kept in.
pub open spec fn namespace_table() -> Seq<char> {
    "T_NAMESPACE"@
}

/// The name of the table jobs are kept in.
pub fn job_table_name() -> (r: String)
    ensures
        r@ == job_table(),
{
    "T_JOB".to_owned()
}

/// The name of the table task runs are kept in.
pub fn job_task_table_name() -> (r: String)
    ensures
        r@ == job_task_table(),
{
    "T_JOB_TASK".to_owned()
}

/// The name of the table namespaces are kept in.
pub fn namespace_table_name() -> (r: String)
    ensures
        r@ == namespace_table(),
{
    "T_NAMESPACE".to_owned()
}

/// The eight bytes of an id, most significant first.
pub open spec fn id_bytes(id: u64) -> Seq<u8> {
    seq![
        (id / 0x100_0000_0000_0000) as u8,
        (id / 0x1_0000_0000_0000 % 256) as u8,
        (id / 0x100_0000_0000 % 256) as u8,
        (id / 0x1_0000_0000 % 256) as u8,
        (id / 0x100_0000 % 256) as u8,
        (id / 0x1_0000 % 256) as u8,
        (id / 0x100 % 256) as u8,
        (id % 256) as u8,
    ]
}

/// The key of a record kept by id: the id's eight bytes, most significant first.
pub fn id_to_bin(id: u64) -> (r: Vec<u8>)
    ensures
        r@ == id_bytes(id),
{
    let mut r: Vec<u8> = Vec::new();
    r.push((id / 0x100_0000_0000_0000) as u8);
    r.push((id / 0x1_0000_0000_0000 % 256) as u8);
    r.push((id / 0x100_0000_0000 % 256) as u8);
    r.push((id / 0x1_0000_0000 % 256) as u8);
    r.push((id / 0x100_0000 % 256) as u8);
    r.push((id / 0x1_0000 % 256) as u8);
    r.push((id / 0x100 % 256) as u8);
    r.push((id % 256) as u8);
    proof {
        assert(r@ =~= id_bytes(id));
    }
    r
}

/// The message a record's value frames, where it frames one.
pub open spec fn record_message(value: Seq<u8>) -> Option<Seq<u8>> {
    unframed(value)
}

/// An id read back from its eight bytes.
pub open spec fn id_of_bytes(b: Seq<u8>) -> int {
    ((((((b[0] * 256 + b[1]) * 256 + b[2]) * 256 + b[3]) * 256 + b[4]) * 256 + b[5]) * 256 + b[6]) * 256
        + b[7]
}

/// Distinct ids have distinct keys: the id can be read back from its key.
pub proof fn lemma_id_bytes_round_trip(id: u64)
    ensures
        id_bytes(id).len() == 8,
        id_of_bytes(id_bytes(id)) == id,
{
    let b = id_bytes(id);
    let b0: u64 = id / 0x100_0000_0000_0000;
    let b1: u64 = id / 0x1_0000_0000_0000 % 256;
    let b2: u64 = id / 0x100_0000_0000 % 256;
    let b3: u64 = id / 0x1_0000_0000 % 256;
    let b4: u64 = id / 0x100_0000 % 256;
    let b5: u64 = id / 0x1_0000 % 256;
    let b6: u64 = id / 0x100 % 256;
    let b7: u64 = id % 256;
    assert(((((((b0 * 256 + b1) * 256 + b2) * 256 + b3) * 256 + b4) * 256 + b5) * 256 + b6) * 256 + b7
        == id) by (bit_vector)
        requires
            b0 == id / 0x100_0000_0000_0000,
            b1 == id / 0x1_0000_0000_0000 % 256,
            b2 == id / 0x100_0000_0000 % 256,
            b3 == id / 0x1_0000_0000 % 256,
            b4 == id / 0x100_0000 % 256,
            b5 == id / 0x1_0000 % 256,
            b6 == id / 0x100 % 256,
            b7 == id % 256,
    ;
    assert(b[0] == b0 && b[1] == b1 && b[2] == b2 && b[3] == b3);
    assert(b[4] == b4 && b[5] == b5 && b[6] == b6 && b[7] == b7);
}

} // verus!

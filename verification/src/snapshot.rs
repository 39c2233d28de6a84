use vstd::prelude::*;

verus! {

/// A self-describing value that carries one component's persistent state,
/// shaped after the MessagePack data model: integers, booleans, binary
/// blobs, UTF-8 text, arrays and maps.
#[derive(Debug, PartialEq, Eq)]
pub enum SnapshotValue {
    Integer(u64),
    Boolean(bool),
    Binary(Vec<u8>),
    Text(Vec<u8>),
    Array(Vec<SnapshotValue>),
    Mapping(Vec<(SnapshotValue, SnapshotValue)>),
}

/// `v` is a one-entry map from the text key `key` to the binary blob `payload`:
/// the shape both memory-like components use for their snapshots.
pub open spec fn is_bin_map_snapshot(v: SnapshotValue, key: Seq<u8>, payload: Seq<u8>) -> bool {
    match v {
        SnapshotValue::Mapping(entries) => entries@.len() == 1 && match entries@[0] {
            (SnapshotValue::Text(k), SnapshotValue::Binary(b)) => k@ == key && b@ == payload,
            _ => false,
        },
        _ => false,
    }
}

/// The binary payload under the text key `key`, when `v` has the one-entry
/// map shape; `None` on every other shape.
pub open spec fn bin_map_payload(v: SnapshotValue, key: Seq<u8>) -> Option<Seq<u8>> {
    match v {
        SnapshotValue::Mapping(entries) => if entries@.len() == 1 {
            match entries@[0] {
                (SnapshotValue::Text(k), SnapshotValue::Binary(b)) => if k@ == key {
                    Some(b@)
                } else {
                    None
                },
                _ => None,
            }
        } else {
            None
        },
        _ => None,
    }
}

/// Byte-wise equality of two vectors.
pub fn bytes_eq(a: &Vec<u8>, b: &Vec<u8>) -> (r: bool)
    ensures
        r == (a@ == b@),
{
    if a.len() != b.len() {
        return false;
    }
    let n = a.len();
    let mut i: usize = 0;
    while i < n
        invariant
            0 <= i <= n,
            n == a@.len() && n == b@.len(),
            forall|j: int| 0 <= j < i ==> a@[j] == b@[j],
        decreases n - i,
    {
        if a[i] != b[i] {
            return false;
        }
        i = i + 1;
    }
    proof {
        assert(a@ =~= b@);
    }
    true
}

/// Wrap a payload as the one-entry map snapshot under `key`.
pub fn make_bin_map_snapshot(key: Vec<u8>, payload: Vec<u8>) -> (r: SnapshotValue)
    ensures
        is_bin_map_snapshot(r, key@, payload@),
{
    let mut entries: Vec<(SnapshotValue, SnapshotValue)> = Vec::new();
    entries.push((SnapshotValue::Text(key), SnapshotValue::Binary(payload)));
    SnapshotValue::Mapping(entries)
}

/// Unwrap the payload of a one-entry map snapshot under `key`, if `v` has
/// that shape.
pub fn take_bin_map_payload(v: SnapshotValue, key: &Vec<u8>) -> (r: Option<Vec<u8>>)
    ensures
        match bin_map_payload(v, key@) {
            Some(m) => r is Some && r->0@ == m,
            None => r is None,
        },
{
    match v {
        SnapshotValue::Mapping(mut entries) => {
            if entries.len() != 1 {
                return None;
            }
            let (k, val) = entries.remove(0);
            match (k, val) {
                (SnapshotValue::Text(kb), SnapshotValue::Binary(b)) => {
                    if bytes_eq(&kb, key) {
                        Some(b)
                    } else {
                        None
                    }
                },
                _ => None,
            }
        },
        _ => None,
    }
}

} // verus!

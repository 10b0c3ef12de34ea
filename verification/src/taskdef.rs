//! Naming of tasks: workflow ids from a stable hash of their argument,
//! worker build ids, and choosing the task queue a worker serves.

use vstd::prelude::*;
use vstd::string::*;

use crate::hex::{bytes_to_hex_string, hex_lower};
use crate::text::{owned, str_eq, string_push};

verus! {

/// Global name of a task (an activity or a workflow).
pub trait TemporalioDescriptorName {
    /// The name.
    fn name() -> &'static str;
}

/// The upper-case hexadecimal digit of a value below sixteen.
pub open spec fn upper_hex_digit(n: int) -> char {
    if n < 10 {
        (48 + n) as char
    } else {
        (55 + n) as char
    }
}

/// A number in upper-case hexadecimal without leading zeros, as `{:X}`
/// prints it ("0" for zero).
pub open spec fn upper_hex(v: nat) -> Seq<char>
    decreases v,
{
    if v < 16 {
        seq![upper_hex_digit(v as int)]
    } else {
        upper_hex(v / 16).push(upper_hex_digit((v % 16) as int))
    }
}

/// A number in upper-case hexadecimal without leading zeros.
pub fn upper_hex_u128(v: u128) -> (r: String)
    ensures
        r@ == upper_hex(v as nat),
    decreases v,
{
    let d = (v % 16) as u8;
    let c: char = if d < 10 {
        (48u8 + d) as char
    } else {
        (55u8 + d) as char
    };
    if v < 16 {
        let mut r = String::new();
        string_push(&mut r, c);
        proof {
            assert(r@ =~= seq![upper_hex_digit(v as int)]);
        }
        r
    } else {
        let mut r = upper_hex_u128(v / 16);
        string_push(&mut r, c);
        r
    }
}

/// What `stable_hash::fast_stable_hash` gives for a byte vector.
pub uninterp spec fn fast_stable_hash_of(bytes: Seq<u8>) -> u128;

/// `stable_hash::fast_stable_hash` on a byte vector: a 128-bit hash that
/// depends on the bytes alone (named, not stated).
#[verifier::external_body]
fn fast_stable_hash_bytes(bytes: &Vec<u8>) -> (r: u128)
    ensures
        r == fast_stable_hash_of(bytes@),
{
    stable_hash::fast_stable_hash(bytes)
}

/// The stable hash of serialized bytes, as upper-case hexadecimal text.
pub fn stable_hash(key_bytes: &Vec<u8>) -> (r: String)
    ensures
        r@ == upper_hex(fast_stable_hash_of(key_bytes@) as nat),
{
    let h = fast_stable_hash_bytes(key_bytes);
    upper_hex_u128(h)
}

/// The id of a workflow run: the task name, `_`, then the hash of its
/// argument in upper-case hexadecimal.
pub open spec fn workflow_id_text(name: Seq<char>, hash: u128) -> Seq<char> {
    name + seq!['_'] + upper_hex(hash as nat)
}

/// The id of a workflow run from the task name and the hash of its
/// argument.
pub fn workflow_id_from_hash(name: &str, hash: u128) -> (r: String)
    ensures
        r@ == workflow_id_text(name@, hash),
{
    let mut r = owned(name);
    string_push(&mut r, '_');
    let h = upper_hex_u128(hash);
    r.append(h.as_str());
    r
}

/// The id of a workflow run from the task name and its serialized
/// argument: the same argument always gives the same id.
pub fn workflow_id(name: &str, arg_bytes: &Vec<u8>) -> (r: String)
    ensures
        r@ == workflow_id_text(name@, fast_stable_hash_of(arg_bytes@)),
{
    let h = fast_stable_hash_bytes(arg_bytes);
    workflow_id_from_hash(name, h)
}

/// Stands for a binary whose build id cannot be read.
pub const UNKNOWN_BUILD_ID: &'static str = "unknown";

/// The build id as text: its bytes in lower-case hexadecimal, or those of
/// "unknown" when there is none.
pub fn build_id(id: Option<&[u8]>) -> (r: String)
    ensures
        r@ == hex_lower(match id {
            Some(b) => b@,
            None => UNKNOWN_BUILD_ID@.map_values(|c: char| c as u8),
        }),
{
    match id {
        Some(b) => bytes_to_hex_string(b),
        None => {
            let bytes = UNKNOWN_BUILD_ID.as_bytes();
            proof {
                reveal_strlit("unknown");
                vstd::string::is_ascii_spec_bytes(UNKNOWN_BUILD_ID);
                assert(bytes@ =~= UNKNOWN_BUILD_ID@.map_values(|c: char| c as u8));
            }
            bytes_to_hex_string(bytes)
        },
    }
}

/// The build id a worker reports: its queue name, `__`, then the build id.
pub fn worker_build_id(queue_name: &str, build_id: &str) -> (r: String)
    ensures
        r@ == queue_name@ + seq!['_', '_'] + build_id@,
{
    let mut r = owned(queue_name);
    string_push(&mut r, '_');
    string_push(&mut r, '_');
    r.append(build_id);
    r
}

/// Why no single task queue matches a worker's argument.
#[derive(Debug, Clone, Copy, PartialEq, Eq)]
pub enum QueueMatchError {
    /// No queue has that name.
    NoMatchingQueue,
    /// Several queues have that name.
    MultipleMatchingQueues,
}

/// How many of the names equal `name`.
pub open spec fn count_named(names: Seq<String>, name: Seq<char>) -> nat
    decreases names.len(),
{
    if names.len() == 0 {
        0
    } else {
        count_named(names.drop_last(), name) + (if names.last()@ == name { 1nat } else { 0nat })
    }
}

/// Chooses the task queue named `arg`: its position among the queues when
/// exactly one has that name, an error otherwise.
pub fn matching_queue(queue_names: &Vec<String>, arg: &str) -> (r: Result<usize, QueueMatchError>)
    ensures
        count_named(queue_names@, arg@) == 0 <==> r == Err::<usize, QueueMatchError>(QueueMatchError::NoMatchingQueue),
        count_named(queue_names@, arg@) > 1 <==> r == Err::<usize, QueueMatchError>(QueueMatchError::MultipleMatchingQueues),
        r matches Ok(i) ==> i < queue_names@.len() && queue_names@[i as int]@ == arg@ && count_named(queue_names@, arg@) == 1,
{
    let mut found: Option<usize> = None;
    let mut count: usize = 0;
    let n = queue_names.len();
    let mut i: usize = 0;
    while i < n
        invariant
            n == queue_names@.len(),
            i <= n,
            count == count_named(queue_names@.take(i as int), arg@),
            count <= i,
            count == 0 <==> found is None,
            found matches Some(k) ==> k < i && queue_names@[k as int]@ == arg@,
        decreases n - i,
    {
        proof {
            assert(queue_names@.take(i + 1).drop_last() =~= queue_names@.take(i as int));
            assert(queue_names@.take(i + 1).last() == queue_names@[i as int]);
        }
        if str_eq(queue_names[i].as_str(), arg) {
            count = count + 1;
            if found.is_none() {
                found = Some(i);
            }
        }
        i = i + 1;
    }
    proof {
        assert(queue_names@.take(n as int) =~= queue_names@);
    }
    if count == 0 {
        return Err(QueueMatchError::NoMatchingQueue);
    }
    if count > 1 {
        return Err(QueueMatchError::MultipleMatchingQueues);
    }
    match found {
        Some(k) => Ok(k),
        None => Err(QueueMatchError::NoMatchingQueue),
    }
}

} // verus!

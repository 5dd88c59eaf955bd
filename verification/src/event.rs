//! Functions and structs for managing calendar events.
//!
//! The store operations here all work against the in-memory picture
//! of the events directory ([`crate::dir::EventsDir`]); the thin
//! unverified layer around the library keeps that picture and the
//! real directory in step.

use vstd::prelude::*;

verus! {

use crate::codec::{append_chunk, bits_secs, read_chunk, secs_bits, spec_decode_event,
    spec_encode_event};
use crate::dir::EventsDir;
use crate::error::Error;
use crate::ids::{dec_of, id_to_name, lemma_id_round_trip, name_to_id, parse_dec};
use crate::time::Timestamp;
use vstd::bytes::{u128_from_le_bytes, u128_to_le_bytes, u32_from_le_bytes, u32_to_le_bytes,
    u64_from_le_bytes, u64_to_le_bytes};
use vstd::slice::{slice_index_get, slice_subrange};

/// The mathematical value of an event record: what the contracts
/// speak of.
#[verifier::ext_equal]
pub struct EventV {
    pub name: Seq<char>,
    pub description: Option<Seq<char>>,
    pub date_time: Timestamp,
    pub id: u128,
}

/// An event that can be added to the calendar.
#[derive(Debug, Clone, PartialEq)]
pub struct Event {
    /// Name of the event.
    pub name: String,
    /// Optional description for the event.
    pub description: Option<String>,
    /// The time at which the event occurs (stored in UTC; timezone
    /// offsets are added outside this core).
    pub date_time: Timestamp,
    /// Unique id for the event.  This is necessary because different
    /// events can have the same name.  Its decimal form also acts as
    /// the filename for the serialized event.
    id: u128,
}

impl View for Event {
    type V = EventV;

    closed spec fn view(&self) -> EventV {
        EventV {
            name: self.name@,
            description: match self.description {
                Some(d) => Some(d@),
                None => None,
            },
            date_time: self.date_time,
            id: self.id,
        }
    }
}

/// The ids already in use, derived from the directory listing: each
/// filename parsed as a decimal 128-bit integer, names that do not
/// parse as one silently ignored as foreign, unrelated files.
pub open spec fn ids_of(names: Seq<Seq<char>>) -> Seq<u128>
    decreases names.len(),
{
    if names.len() == 0 {
        Seq::empty()
    } else {
        match parse_dec(names.last()) {
            Some(id) => ids_of(names.drop_last()).push(id),
            None => ids_of(names.drop_last()),
        }
    }
}

/// An id is scanned exactly when some filename parses to it.
pub proof fn lemma_ids_of_contains(names: Seq<Seq<char>>, id: u128)
    ensures
        ids_of(names).contains(id) <==> exists|i: int|
            0 <= i < names.len() && parse_dec(names[i]) == Some(id),
    decreases names.len(),
{
    if names.len() == 0 {
    } else {
        let rest = names.drop_last();
        let last = names.last();
        lemma_ids_of_contains(rest, id);
        match parse_dec(last) {
            Some(l) => {
                let s = ids_of(rest).push(l);
                if s.contains(id) {
                    let k = choose|k: int| 0 <= k < s.len() && s[k] == id;
                    if k == s.len() - 1 {
                        assert(parse_dec(names[names.len() - 1]) == Some(id));
                    } else {
                        assert(ids_of(rest)[k] == id);
                        assert(ids_of(rest).contains(id));
                        let i = choose|i: int|
                            0 <= i < rest.len() && parse_dec(rest[i]) == Some(id);
                        assert(parse_dec(names[i]) == Some(id));
                    }
                }
                if exists|i: int| 0 <= i < names.len() && parse_dec(names[i]) == Some(id) {
                    let i = choose|i: int| 0 <= i < names.len() && parse_dec(names[i]) == Some(id);
                    if i == names.len() - 1 {
                        assert(s[s.len() - 1] == id);
                        assert(s.contains(id));
                    } else {
                        assert(parse_dec(rest[i]) == Some(id));
                        assert(ids_of(rest).contains(id));
                        let k = choose|k: int|
                            0 <= k < ids_of(rest).len() && ids_of(rest)[k] == id;
                        assert(s[k] == id);
                        assert(s.contains(id));
                    }
                }
            },
            None => {
                if ids_of(names).contains(id) {
                    let i = choose|i: int| 0 <= i < rest.len() && parse_dec(rest[i]) == Some(id);
                    assert(parse_dec(names[i]) == Some(id));
                }
                if exists|i: int| 0 <= i < names.len() && parse_dec(names[i]) == Some(id) {
                    let i = choose|i: int| 0 <= i < names.len() && parse_dec(names[i]) == Some(id);
                    assert(i < names.len() - 1);
                    assert(parse_dec(rest[i]) == Some(id));
                }
            },
        }
    }
}

/// An id whose file stands in the directory under its decimal name
/// is seen by the id scan.
pub proof fn lemma_stored_id_is_scanned(dir: EventsDir, id: u128)
    requires
        dir.has_file(dec_of(id as nat)),
    ensures
        ids_of(dir.names()).contains(id),
{
    lemma_id_round_trip(id);
    lemma_ids_of_contains(dir.names(), id);
    let k = choose|k: int| 0 <= k < dir.names().len() && dir.names()[k] == dec_of(id as nat);
    assert(parse_dec(dir.names()[k]) == Some(id));
}

/// A freshly generated id differs from every id whose file stands in
/// the directory: ids generated in sequence against a directory that
/// accumulates one file per generated id can never repeat.
pub proof fn lemma_fresh_id_differs(dir: EventsDir, fresh: u128, stored: u128)
    requires
        !ids_of(dir.names()).contains(fresh),
        dir.has_file(dec_of(stored as nat)),
    ensures
        fresh != stored,
{
    lemma_stored_id_is_scanned(dir, stored);
}

/// Gets all event ids in use, by reading the filenames of the events
/// directory.  Filenames that do not parse as a decimal 128-bit
/// integer are silently ignored.
pub fn get_ids(dir: &EventsDir) -> (r: Result<Vec<u128>, Error>)
    requires
        dir.wf(),
    ensures
        r is Ok <==> dir.dir_exists(),
        r matches Ok(v) ==> v@ == ids_of(dir.names()),
        r matches Err(e) ==> e is Filesystem,
{
    let names = match dir.file_names() {
        Ok(v) => v,
        Err(e) => {
            return Err(e);
        },
    };
    let mut ids: Vec<u128> = Vec::new();
    let n = names.len();
    let mut i: usize = 0;
    while i < n
        invariant
            n == names@.len(),
            names@.len() == dir.names().len(),
            forall|j: int| 0 <= j < n ==> names@[j]@ == dir.names()[j],
            i <= n,
            ids@ == ids_of(dir.names().take(i as int)),
        decreases n - i,
    {
        proof {
            assert(dir.names().take(i as int + 1).drop_last() =~= dir.names().take(i as int));
            assert(dir.names().take(i as int + 1).last() == dir.names()[i as int]);
        }
        match name_to_id(names[i].as_str()) {
            Some(id) => ids.push(id),
            None => {},
        }
        i = i + 1;
    }
    proof {
        assert(dir.names().take(n as int) =~= dir.names());
    }
    Ok(ids)
}

/// Whether `id` occurs in `ids`.
fn contains_id(ids: &Vec<u128>, id: u128) -> (r: bool)
    ensures
        r == ids@.contains(id),
{
    let n = ids.len();
    let mut i: usize = 0;
    while i < n
        invariant
            n == ids@.len(),
            i <= n,
            forall|j: int| 0 <= j < i ==> ids@[j] != id,
        decreases n - i,
    {
        if ids[i] == id {
            return true;
        }
        i = i + 1;
    }
    proof {
        if ids@.contains(id) {
            let k = choose|k: int| 0 <= k < ids@.len() && ids@[k] == id;
            assert(false);
        }
    }
    false
}

/// Among any sequence that holds every value below `k`, there are at
/// least `k` elements.
proof fn lemma_pigeonhole(ids: Seq<u128>, k: int)
    requires
        0 <= k <= u128::MAX as int + 1,
        forall|x: u128| (x as int) < k ==> ids.contains(x),
    ensures
        ids.len() >= k,
    decreases k,
{
    if k > 0 {
        let v = (k - 1) as u128;
        assert(ids.contains(v));
        let idx = choose|i: int| 0 <= i < ids.len() && ids[i] == v;
        let rest = ids.subrange(0, idx) + ids.subrange(idx + 1, ids.len() as int);
        assert(rest.len() == ids.len() - 1);
        assert forall|x: u128| (x as int) < k - 1 implies rest.contains(x) by {
            assert(ids.contains(x));
            let j = choose|i: int| 0 <= i < ids.len() && ids[i] == x;
            if j < idx {
                assert(rest[j] == x);
                assert(rest.contains(x));
            } else {
                assert(j != idx);
                assert(rest[j - 1] == x);
                assert(rest.contains(x));
            }
        }
        lemma_pigeonhole(rest, k - 1);
    }
}

/// A deterministic last resort for id generation: the smallest value
/// not yet in use.  Among any `n` ids, one of the `n + 1` values
/// `0 ..= n` is always free.
fn first_free_id(ids: &Vec<u128>) -> (r: u128)
    ensures
        !ids@.contains(r),
{
    let n = ids.len();
    let bound: u128 = n as u128;
    let mut c: u128 = 0;
    while c <= bound
        invariant
            bound == ids@.len(),
            bound <= u64::MAX,
            c <= bound + 1,
            forall|x: u128| x < c ==> ids@.contains(x),
        decreases bound + 1 - c,
    {
        if !contains_id(ids, c) {
            return c;
        }
        c = c + 1;
    }
    proof {
        assert forall|x: u128| (x as int) < bound as int + 1 implies ids@.contains(x) by {
            assert(x < c);
        }
        lemma_pigeonhole(ids@, bound as int + 1);
        assert(false);
    }
    0
}

/// Relies on `rand::random` to draw a value of any type that the
/// standard distribution covers.  Nothing is assumed about the value
/// drawn: every caller must cope with every outcome.
pub assume_specification<T>[ rand::random::<T> ]() -> (r: T)
    where
        rand::distributions::Standard: rand::distributions::Distribution<T>,
;

/// Generates a unique id for an event: draws a uniformly random
/// 128-bit value and redraws while it collides with an id already in
/// use in the events directory.  Termination of pure rejection
/// sampling is only probabilistic (though effectively certain in a
/// 128-bit space), so after an astronomically large budget of draws
/// the generator falls back to a deterministic sweep for the
/// smallest free value; the result is fresh either way.
pub fn generate_id(dir: &EventsDir) -> (r: Result<u128, Error>)
    requires
        dir.wf(),
    ensures
        r is Ok <==> dir.dir_exists(),
        r matches Ok(id) ==> !ids_of(dir.names()).contains(id),
        r matches Err(e) ==> e is Filesystem,
{
    let ids = match get_ids(dir) {
        Ok(v) => v,
        Err(e) => {
            return Err(e);
        },
    };
    let mut fuel: u64 = u64::MAX;
    while fuel > 0
        invariant
            dir.wf(),
            dir.dir_exists(),
            ids@ == ids_of(dir.names()),
        decreases fuel,
    {
        let id: u128 = rand::random();
        if !contains_id(&ids, id) {
            return Ok(id);
        }
        fuel = fuel - 1;
    }
    Ok(first_free_id(&ids))
}

/// Encodes an event into its binary record form.  Encoding is total:
/// it cannot fail.
pub fn encode_event(e: &Event) -> (r: Vec<u8>)
    ensures
        r@ == spec_encode_event(e@),
{
    let mut out: Vec<u8> = Vec::new();
    append_chunk(&mut out, e.name.as_str());
    match &e.description {
        Some(d) => {
            out.push(1u8);
            append_chunk(&mut out, d.as_str());
        },
        None => {
            out.push(0u8);
        },
    }
    let secs = e.date_time.secs;
    let bits: u64 = if secs >= 0 {
        secs as u64
    } else {
        let mag: u64 = (-(secs + 1)) as u64;
        u64::MAX - mag
    };
    proof {
        assert(bits == secs_bits(secs));
    }
    let mut tail = u64_to_le_bytes(bits);
    out.append(&mut tail);
    let mut nanos = u32_to_le_bytes(e.date_time.nanos);
    out.append(&mut nanos);
    let mut idb = u128_to_le_bytes(e.id);
    out.append(&mut idb);
    proof {
        assert(out@ =~= spec_encode_event(e@));
    }
    out
}

/// Decodes a binary record back into an event.  Yields nothing when
/// the bytes are not the well-formed encoding of a record.
pub fn decode_event(bytes: &[u8]) -> (r: Option<Event>)
    ensures
        match r {
            Some(e) => spec_decode_event(bytes@) == Some(e@),
            None => spec_decode_event(bytes@) is None,
        },
{
    proof {
        assert(bytes@.skip(0) =~= bytes@);
    }
    let n = bytes.len();
    let (name, pos1) = match read_chunk(bytes, 0) {
        Some(p) => p,
        None => {
            return None;
        },
    };
    if pos1 >= n {
        return None;
    }
    let tag = *slice_index_get(bytes, pos1);
    proof {
        assert(bytes@.skip(pos1 as int)[0] == bytes@[pos1 as int]);
        assert(bytes@.skip(pos1 as int).skip(1) =~= bytes@.skip(pos1 as int + 1));
    }
    let (description, pos2): (Option<String>, usize) = if tag == 0 {
        (None, pos1 + 1)
    } else if tag == 1 {
        match read_chunk(bytes, pos1 + 1) {
            Some(p) => (Some(p.0), p.1),
            None => {
                return None;
            },
        }
    } else {
        return None;
    };
    if n - pos2 != 28 {
        return None;
    }
    let ghost b2 = bytes@.skip(pos2 as int);
    let secs_b = u64_from_le_bytes(slice_subrange(bytes, pos2, pos2 + 8));
    let nanos = u32_from_le_bytes(slice_subrange(bytes, pos2 + 8, pos2 + 12));
    let id = u128_from_le_bytes(slice_subrange(bytes, pos2 + 12, pos2 + 28));
    proof {
        assert(bytes@.subrange(pos2 as int, pos2 as int + 8) =~= b2.take(8));
        assert(bytes@.subrange(pos2 as int + 8, pos2 as int + 12) =~= b2.skip(8).take(4));
        assert(bytes@.subrange(pos2 as int + 12, pos2 as int + 28) =~= b2.skip(12));
    }
    let secs: i64 = if secs_b <= 0x7fff_ffff_ffff_ffff {
        secs_b as i64
    } else {
        -((u64::MAX - secs_b) as i64) - 1
    };
    proof {
        assert(secs == bits_secs(secs_b));
    }
    let e = Event { name, description, date_time: Timestamp { secs, nanos }, id };
    proof {
        assert(spec_decode_event(bytes@) == Some(e@));
    }
    Some(e)
}

impl Event {
    /// Creates an event in memory: generates a fresh unique id by
    /// scanning the current contents of the events directory, and
    /// assembles the value.  Nothing is written to disk.  Fails only
    /// when the events directory cannot be read.
    pub fn new(name: &str, description: Option<&str>, date_time: Timestamp, dir: &EventsDir) -> (r:
        Result<Event, Error>)
        requires
            dir.wf(),
        ensures
            r is Ok <==> dir.dir_exists(),
            r matches Ok(e) ==> {
                &&& e@.name == name@
                &&& (match description {
                    Some(d) => e@.description == Some(d@),
                    None => e@.description is None,
                })
                &&& e@.date_time == date_time
                &&& !ids_of(dir.names()).contains(e@.id)
            },
            r matches Err(e) ==> e is Filesystem,
    {
        let id = match generate_id(dir) {
            Ok(i) => i,
            Err(e) => {
                return Err(e);
            },
        };
        Ok(
            Event {
                name: name.to_owned(),
                description: match description {
                    Some(d) => Some(d.to_owned()),
                    None => None,
                },
                date_time,
                id,
            },
        )
    }

    /// The unique id of the event; its decimal form is the filename
    /// under which the event is stored.
    pub fn id(&self) -> (id: u128)
        ensures
            id == self@.id,
    {
        self.id
    }

    /// Serializes the event and writes it to the events directory,
    /// under its id as filename, overwriting a file of that name if
    /// one already exists.  Fails only when the directory does not
    /// exist.
    pub fn store(&self, dir: &mut EventsDir) -> (r: Result<(), Error>)
        requires
            old(dir).wf(),
        ensures
            final(dir).wf(),
            final(dir).dir_exists() == old(dir).dir_exists(),
            r is Ok <==> old(dir).dir_exists(),
            r is Err ==> *final(dir) == *old(dir),
            r matches Err(e) ==> e is Filesystem,
            r is Ok ==> final(dir).has_file(dec_of(self@.id as nat)),
            old(dir).dir_exists() && old(dir).has_file(dec_of(self@.id as nat))
                ==> final(dir).entries() == old(dir).entries().update(
                old(dir).file_index(dec_of(self@.id as nat)),
                (dec_of(self@.id as nat), spec_encode_event(self@)),
            ),
            old(dir).dir_exists() && !old(dir).has_file(dec_of(self@.id as nat))
                ==> final(dir).entries() == old(dir).entries().push(
                (dec_of(self@.id as nat), spec_encode_event(self@)),
            ),
    {
        let bytes = encode_event(self);
        let fname = id_to_name(self.id);
        let ghost nm = dec_of(self@.id as nat);
        let ghost pre = *dir;
        let r = dir.write_file(fname.as_str(), bytes);
        proof {
            if pre.dir_exists() {
                if pre.has_file(nm) {
                    let idx = pre.file_index(nm);
                    assert(pre.names()[idx] == nm);
                    assert(dir.entries()[idx].0 == nm);
                    assert(dir.names()[idx] == nm);
                    assert(dir.has_file(nm));
                } else {
                    let last = dir.entries().len() - 1;
                    assert(dir.entries()[last].0 == nm);
                    assert(dir.names()[last] == nm);
                    assert(dir.has_file(nm));
                }
            }
        }
        r
    }

    /// Deletes the file associated with the event.  Unlike directory
    /// bootstrap, deleting an event whose file is absent is an
    /// error.
    pub fn delete_file(&self, dir: &mut EventsDir) -> (r: Result<(), Error>)
        requires
            old(dir).wf(),
        ensures
            final(dir).wf(),
            final(dir).dir_exists() == old(dir).dir_exists(),
            r is Ok <==> old(dir).dir_exists() && old(dir).has_file(dec_of(self@.id as nat)),
            r is Ok ==> final(dir).entries() == old(dir).entries().remove(
                old(dir).file_index(dec_of(self@.id as nat)),
            ),
            r is Ok ==> !final(dir).has_file(dec_of(self@.id as nat)),
            r is Err ==> *final(dir) == *old(dir),
            r matches Err(e) ==> e is Filesystem,
    {
        let fname = id_to_name(self.id);
        let ghost nm = dec_of(self@.id as nat);
        let ghost pre = *dir;
        let r = dir.remove_file(fname.as_str());
        proof {
            if r is Ok {
                pre.lemma_unique_names();
                let idx = pre.file_index(nm);
                assert(pre.names()[idx] == nm);
                assert forall|j: int| 0 <= j < dir.names().len() implies dir.names()[j] != nm by {
                    let oi = if j < idx {
                        j
                    } else {
                        j + 1
                    };
                    assert(dir.entries()[j] == pre.entries().remove(idx)[j]);
                    assert(pre.entries().remove(idx)[j] == pre.entries()[oi]);
                    if oi < idx {
                        assert(pre.entries()[oi].0 != pre.entries()[idx].0);
                    } else {
                        assert(pre.entries()[idx].0 != pre.entries()[oi].0);
                    }
                }
                if dir.has_file(nm) {
                    let k = choose|k: int| 0 <= k < dir.names().len() && dir.names()[k] == nm;
                    assert(false);
                }
            }
        }
        r
    }
}

/// Reads all the events from the events directory: every regular
/// file, in listing order, is read whole and decoded.  A file whose
/// contents do not decode as an event aborts the entire read.
pub fn read_events(dir: &EventsDir) -> (r: Result<Vec<Event>, Error>)
    requires
        dir.wf(),
    ensures
        r is Ok <==> dir.dir_exists() && (forall|i: int|
            0 <= i < dir.entries().len() ==> spec_decode_event(#[trigger] dir.entries()[i].1)
                is Some),
        r matches Ok(v) ==> v@.len() == dir.entries().len() && (forall|i: int|
            0 <= i < v@.len() ==> Some(#[trigger] v@[i]@) == spec_decode_event(
                dir.entries()[i].1,
            )),
        r matches Err(e) ==> if !dir.dir_exists() {
            e is Filesystem
        } else {
            e is Deserialization
        },
{
    if !dir.present() {
        return Err(Error::Filesystem { path: dir.path_name().clone() });
    }
    let n = dir.file_count();
    let mut out: Vec<Event> = Vec::new();
    let mut i: usize = 0;
    while i < n
        invariant
            dir.wf(),
            dir.dir_exists(),
            n == dir.entries().len(),
            i <= n,
            out@.len() == i,
            forall|j: int| 0 <= j < i ==> Some(#[trigger] out@[j]@) == spec_decode_event(
                dir.entries()[j].1,
            ),
        decreases n - i,
    {
        let bytes = dir.entry_bytes(i);
        match decode_event(bytes.as_slice()) {
            Some(e) => out.push(e),
            None => {
                let file = dir.entry_name(i).clone();
                proof {
                    assert(spec_decode_event(dir.entries()[i as int].1) is None);
                }
                return Err(Error::Deserialization { file });
            },
        }
        i = i + 1;
    }
    proof {
        assert forall|k: int| 0 <= k < dir.entries().len() implies spec_decode_event(
            #[trigger] dir.entries()[k].1,
        ) is Some by {
            assert(Some(out@[k]@) == spec_decode_event(dir.entries()[k].1));
        }
    }
    Ok(out)
}

} // verus!

//! Captured event records and the extraction of message and fields from a
//! raw key/value payload.
//!
//! A structured log event arrives as a list of `(name, rendered value)`
//! pairs. By convention the human-readable message travels as the field
//! named `message`; extraction isolates it and keeps the remaining fields
//! as a distinct-key list, a later occurrence of a name overwriting an
//! earlier one.

use vstd::prelude::*;

use crate::alist::assoc_fold;
use crate::alist::distinct_keys;
use crate::alist::lemma_assoc_fold_push;
use crate::alist::lemma_assoc_fold_update;
use crate::level::Level;

verus! {

/// The reserved field name that carries the log message.
pub open spec fn message_key() -> Seq<char> {
    "message"@
}

/// The pair list seen through the views of its strings.
pub open spec fn raw_view(s: Seq<(String, String)>) -> Seq<(Seq<char>, Seq<char>)> {
    s.map_values(|p: (String, String)| (p.0@, p.1@))
}

/// The mapping described by a raw payload, a later pair overwriting an
/// earlier one with the same name.
pub open spec fn raw_fold(s: Seq<(String, String)>) -> Map<Seq<char>, Seq<char>> {
    assoc_fold(raw_view(s))
}

/// The message carried by a raw payload: the value of the reserved field,
/// or the empty string when it is absent.
pub open spec fn message_of(s: Seq<(String, String)>) -> Seq<char> {
    if raw_fold(s).contains_key(message_key()) {
        raw_fold(s)[message_key()]
    } else {
        Seq::<char>::empty()
    }
}

/// The non-message fields carried by a raw payload.
pub open spec fn fields_of(s: Seq<(String, String)>) -> Map<Seq<char>, Seq<char>> {
    raw_fold(s).remove(message_key())
}

/// The mathematical value of one captured log event.
pub ghost struct LogView {
    /// Severity of the event.
    pub level: Level,
    /// The rendered message.
    pub message: Seq<char>,
    /// The rendered non-message fields, keyed by field name.
    pub fields: Map<Seq<char>, Seq<char>>,
}

/// The record a router builds from an event's level and raw payload.
pub open spec fn record_of(level: Level, s: Seq<(String, String)>) -> LogView {
    LogView { level, message: message_of(s), fields: fields_of(s) }
}

/// One captured log event.
#[derive(Debug, Clone)]
pub struct EventLog {
    /// Severity of the event.
    pub level: Level,
    /// The rendered message of the event, empty when none was carried.
    pub message: String,
    /// The rendered non-message fields, each name present once.
    pub fields: Vec<(String, String)>,
}

impl View for EventLog {
    type V = LogView;

    open spec fn view(&self) -> LogView {
        LogView {
            level: self.level,
            message: self.message@,
            fields: assoc_fold(raw_view(self.fields@)),
        }
    }
}

impl EventLog {
    /// The stored field list carries each name at most once and never the
    /// reserved message name.
    pub open spec fn wf(&self) -> bool {
        &&& distinct_keys(raw_view(self.fields@))
        &&& forall|i: int|
            0 <= i < self.fields@.len() ==> raw_view(self.fields@)[i].0 != message_key()
    }

    /// Build the record for an event with the given severity and raw
    /// payload: the reserved field becomes the message, every other field
    /// is kept under its name, the last occurrence of a name winning.
    pub fn from_raw(level: Level, raw: Vec<(String, String)>) -> (e: EventLog)
        ensures
            e@ == record_of(level, raw@),
            e.wf(),
    {
        let label = message_label();
        let mut message = String::new();
        let mut fields: Vec<(String, String)> = Vec::new();
        let mut i: usize = 0;
        while i < raw.len()
            invariant
                i <= raw@.len(),
                label@ == message_key(),
                distinct_keys(raw_view(fields@)),
                forall|t: int|
                    0 <= t < fields@.len() ==> raw_view(fields@)[t].0 != message_key(),
                assoc_fold(raw_view(fields@)) == raw_fold(raw@.take(i as int)).remove(
                    message_key(),
                ),
                raw_fold(raw@.take(i as int)).contains_key(message_key()) ==> message@
                    == raw_fold(raw@.take(i as int))[message_key()],
                !raw_fold(raw@.take(i as int)).contains_key(message_key()) ==> message@
                    == Seq::<char>::empty(),
            decreases raw@.len() - i,
        {
            let ghost prev = raw@.take(i as int);
            let ghost cur = raw@.take(i as int + 1);
            let k = raw[i].0.clone();
            let v = raw[i].1.clone();
            let ghost kv = (k@, v@);
            proof {
                assert(cur =~= prev.push(raw@[i as int]));
                assert(raw_view(cur) =~= raw_view(prev).push(kv));
                lemma_assoc_fold_push(raw_view(prev), kv.0, kv.1);
            }
            if k == label {
                message = v;
                proof {
                    assert(raw_fold(cur).remove(message_key()) =~= raw_fold(prev).remove(
                        message_key(),
                    ));
                }
            } else {
                proof {
                    assert(raw_fold(cur).remove(message_key()) =~= raw_fold(prev).remove(
                        message_key(),
                    ).insert(kv.0, kv.1));
                    assert(raw_fold(cur).contains_key(message_key()) == raw_fold(
                        prev,
                    ).contains_key(message_key()));
                }
                match find_key(&fields, &k) {
                    Some(j) => {
                        let ghost before = fields@;
                        proof {
                            assert(raw_view(before)[j as int].0 == kv.0);
                            assert forall|t: int|
                                j < t < before.len() implies raw_view(before)[t].0 != kv.0 by {
                                assert(raw_view(before)[j as int].0 != raw_view(before)[t].0);
                            }
                        }
                        let _dropped = fields.remove(j);
                        fields.insert(j, (k, v));
                        proof {
                            assert(fields@ =~= before.update(j as int, fields@[j as int]));
                            assert(raw_view(fields@) =~= raw_view(before).update(j as int, kv));
                            lemma_assoc_fold_update(raw_view(before), j as int, kv.0, kv.1);
                            assert(distinct_keys(raw_view(fields@)));
                        }
                    },
                    None => {
                        let ghost before = fields@;
                        fields.push((k, v));
                        proof {
                            assert(raw_view(fields@) =~= raw_view(before).push(kv));
                            lemma_assoc_fold_push(raw_view(before), kv.0, kv.1);
                            assert(distinct_keys(raw_view(fields@)));
                        }
                    },
                }
            }
            i = i + 1;
        }
        proof {
            assert(raw@.take(raw@.len() as int) =~= raw@);
        }
        let e = EventLog { level, message, fields };
        proof {
            assert(e@ =~= record_of(level, raw@));
        }
        e
    }
}

/// The reserved field name as an owned string.
fn message_label() -> (r: String)
    ensures
        r@ == message_key(),
{
    "message".to_string()
}

/// The position of the pair that carries `k`, if any.
fn find_key(fields: &Vec<(String, String)>, k: &String) -> (r: Option<usize>)
    ensures
        match r {
            Some(j) => j < fields@.len() && fields@[j as int].0@ == k@,
            None => forall|t: int| 0 <= t < fields@.len() ==> fields@[t].0@ != k@,
        },
{
    let mut i: usize = 0;
    while i < fields.len()
        invariant
            i <= fields@.len(),
            forall|t: int| 0 <= t < i ==> fields@[t].0@ != k@,
        decreases fields@.len() - i,
    {
        if fields[i].0 == *k {
            return Some(i);
        }
        i = i + 1;
    }
    None
}

} // verus!

use vstd::prelude::*;
use crate::value::{Value, Val, lit, lit_view, deep_items, deep_fields, lemma_deep_items,
    lemma_deep_fields, copy_bytes};
use crate::marshal::{enc, encode};
use chrono::{DateTime, Utc};

verus! {

/// One buffered log record. The timestamp is the wall-clock text the clock
/// gave when the record was made.
pub struct LogEntry {
    pub timestamp: Vec<u8>,
    pub level: Vec<u8>,
    pub message: Vec<u8>,
    pub metadata: Option<Vec<u8>>,
}

/// A bounded log buffer: at most `max_entries` records, oldest evicted
/// first.
pub struct Logger {
    pub entries: Vec<LogEntry>,
    pub max_entries: usize,
}

/// The retention bound a fresh logger is built with.
pub const DEFAULT_RETENTION: usize = 1000;

/// Relies on chrono's `DateTime::from_timestamp` and `to_rfc3339`: the
/// current wall-clock instant written as RFC 3339 text. The clock decides
/// the value, so nothing is assumed of it; a clock that reads before the
/// epoch, or beyond chrono's range, yields the empty text instead of a
/// fault.
#[verifier::external_body]
fn now_rfc3339() -> (r: Vec<u8>)
{
    let since_epoch = match std::time::SystemTime::now().duration_since(std::time::UNIX_EPOCH) {
        Ok(d) => d,
        Err(_) => {
            return Vec::new();
        },
    };
    match DateTime::<Utc>::from_timestamp(since_epoch.as_secs() as i64, since_epoch.subsec_nanos())
    {
        Some(t) => t.to_rfc3339().into_bytes(),
        None => Vec::new(),
    }
}

/// How one record relates to the arguments that made it: everything but the
/// timestamp is pinned; the timestamp is whatever the clock answered.
pub open spec fn entry_fields(e: LogEntry, level: Seq<u8>, message: Seq<u8>, metadata: Option<
    Seq<u8>,
>) -> bool {
    &&& e.level@ == level
    &&& e.message@ == message
    &&& match (e.metadata, metadata) {
        (Some(a), Some(b)) => a@ == b,
        (None, None) => true,
        _ => false,
    }
}

/// Appending under the retention bound: the record goes last; if the buffer
/// would then exceed `max`, the oldest record leaves.
pub open spec fn push_bounded(s: Seq<LogEntry>, e: LogEntry, max: nat) -> Seq<LogEntry> {
    if s.len() + 1 > max {
        s.push(e).drop_first()
    } else {
        s.push(e)
    }
}

/// The buffer after a run of appends, oldest first.
pub open spec fn run_log(s0: Seq<LogEntry>, es: Seq<LogEntry>, max: nat) -> Seq<LogEntry>
    decreases es.len(),
{
    if es.len() == 0 {
        s0
    } else {
        run_log(push_bounded(s0, es[0], max), es.drop_first(), max)
    }
}

/// Retention law: a run of appends keeps exactly the newest records, in
/// insertion order. Starting from `s0` with room spare, after the appends
/// the buffer is the last `max` of `s0 + es` (all of them, if fewer). In
/// particular, after `max + k` appends into an empty buffer exactly `max`
/// records remain and the oldest `k` have been evicted.
pub proof fn lemma_retention(s0: Seq<LogEntry>, es: Seq<LogEntry>, max: nat)
    requires
        s0.len() <= max,
    ensures
        run_log(s0, es, max) == (if s0.len() + es.len() > max {
            s0.add(es).skip(s0.len() + es.len() - max)
        } else {
            s0.add(es)
        }),
    decreases es.len(),
{
    if es.len() == 0 {
        assert(s0.add(es) =~= s0);
    } else {
        let e = es[0];
        let s1 = push_bounded(s0, e, max);
        assert(s1.len() <= max);
        lemma_retention(s1, es.drop_first(), max);
        if s0.len() + 1 > max {
            assert(s1.add(es.drop_first()) =~= s0.add(es).skip(1));
        } else {
            assert(s1.add(es.drop_first()) =~= s0.add(es));
        }
        if s0.len() + es.len() > max {
            if s0.len() + 1 > max {
                assert(s0.add(es).skip(1).skip(s0.len() + es.len() - 1 - max) =~= s0.add(
                    es,
                ).skip(s0.len() + es.len() - max));
            }
        }
    }
}

/// The record as an envelope: timestamp, level and message texts, and the
/// metadata text where one was attached.
pub open spec fn entry_val(e: LogEntry) -> Val {
    Val::Record(
        match e.metadata {
            Some(m) => seq![
                (lit_view("timestamp"@), Val::Text(e.timestamp@)),
                (lit_view("level"@), Val::Text(e.level@)),
                (lit_view("message"@), Val::Text(e.message@)),
                (lit_view("metadata"@), Val::Text(m@)),
            ],
            None => seq![
                (lit_view("timestamp"@), Val::Text(e.timestamp@)),
                (lit_view("level"@), Val::Text(e.level@)),
                (lit_view("message"@), Val::Text(e.message@)),
            ],
        },
    )
}

/// The whole buffer as one envelope: the records oldest first.
pub open spec fn logs_val(es: Seq<LogEntry>) -> Val {
    Val::List(Seq::new(es.len(), |i: int| entry_val(es[i])))
}

impl Logger {
    /// An empty buffer with the default retention bound.
    pub fn new() -> (r: Logger)
        ensures
            r.entries@.len() == 0,
            r.max_entries == DEFAULT_RETENTION,
    {
        Logger { entries: Vec::new(), max_entries: DEFAULT_RETENTION }
    }

    /// Appends one record under the retention bound. The timestamp is taken
    /// from the clock; everything else is pinned by the arguments.
    pub fn log(&mut self, level: &Vec<u8>, message: &Vec<u8>, metadata: Option<Vec<u8>>)
        ensures
            final(self).max_entries == old(self).max_entries,
            exists|e: LogEntry|
                entry_fields(
                    e,
                    level@,
                    message@,
                    match metadata {
                        Some(m) => Some(m@),
                        None => None,
                    },
                ) && final(self).entries@ == push_bounded(
                    old(self).entries@,
                    e,
                    old(self).max_entries as nat,
                ),
    {
        let entry = LogEntry {
            timestamp: now_rfc3339(),
            level: copy_bytes(level),
            message: copy_bytes(message),
            metadata,
        };
        let ghost e = entry;
        self.entries.push(entry);
        if self.entries.len() > self.max_entries {
            self.entries.remove(0);
        }
        proof {
            assert(self.entries@ =~= push_bounded(
                old(self).entries@,
                e,
                old(self).max_entries as nat,
            ));
            assert(entry_fields(
                e,
                level@,
                message@,
                match metadata {
                    Some(m) => Some(m@),
                    None => None,
                },
            ) && final(self).entries@ == push_bounded(
                old(self).entries@,
                e,
                old(self).max_entries as nat,
            ));
        }
    }

    /// Appends an INFO record.
    pub fn info(&mut self, message: &Vec<u8>)
        ensures
            final(self).max_entries == old(self).max_entries,
            exists|e: LogEntry|
                entry_fields(e, lit_view("INFO"@), message@, None) && final(self).entries@
                    == push_bounded(old(self).entries@, e, old(self).max_entries as nat),
    {
        proof {
            reveal_strlit("INFO");
        }
        let level = lit("INFO");
        self.log(&level, message, None);
    }

    /// Appends a WARN record.
    pub fn warn(&mut self, message: &Vec<u8>)
        ensures
            final(self).max_entries == old(self).max_entries,
            exists|e: LogEntry|
                entry_fields(e, lit_view("WARN"@), message@, None) && final(self).entries@
                    == push_bounded(old(self).entries@, e, old(self).max_entries as nat),
    {
        proof {
            reveal_strlit("WARN");
        }
        let level = lit("WARN");
        self.log(&level, message, None);
    }

    /// Appends an ERROR record.
    pub fn error(&mut self, message: &Vec<u8>)
        ensures
            final(self).max_entries == old(self).max_entries,
            exists|e: LogEntry|
                entry_fields(e, lit_view("ERROR"@), message@, None) && final(self).entries@
                    == push_bounded(old(self).entries@, e, old(self).max_entries as nat),
    {
        proof {
            reveal_strlit("ERROR");
        }
        let level = lit("ERROR");
        self.log(&level, message, None);
    }

    /// Appends a DEBUG record carrying metadata.
    pub fn debug(&mut self, message: &Vec<u8>, metadata: &Vec<u8>)
        ensures
            final(self).max_entries == old(self).max_entries,
            exists|e: LogEntry|
                entry_fields(e, lit_view("DEBUG"@), message@, Some(metadata@)) && final(self).entries@ == push_bounded(old(self).entries@, e, old(self).max_entries as nat),
    {
        proof {
            reveal_strlit("DEBUG");
        }
        let level = lit("DEBUG");
        self.log(&level, message, Some(copy_bytes(metadata)));
    }

    /// The buffer, oldest first, as one encoded envelope.
    #[verifier::loop_isolation(false)]
    pub fn get_logs(&self) -> (r: Vec<u8>)
        ensures
            r@ == enc(logs_val(self.entries@)),
    {
        proof {
            reveal_strlit("timestamp");
            reveal_strlit("level");
            reveal_strlit("message");
            reveal_strlit("metadata");
        }
        let mut items: Vec<Value> = Vec::new();
        let mut i: usize = 0;
        let n = self.entries.len();
        proof {
            lemma_deep_items(items, 0);
        }
        while i < n
            invariant
                0 <= i <= n,
                n == self.entries@.len(),
                deep_items(items, 0) == Seq::new(i as nat, |k: int| entry_val(self.entries@[k])),
            decreases n - i,
        {
            let e = &self.entries[i];
            let mut fields: Vec<(Vec<u8>, Value)> = Vec::new();
            fields.push((lit("timestamp"), Value::Text(copy_bytes(&e.timestamp))));
            fields.push((lit("level"), Value::Text(copy_bytes(&e.level))));
            fields.push((lit("message"), Value::Text(copy_bytes(&e.message))));
            match &e.metadata {
                Some(m) => {
                    fields.push((lit("metadata"), Value::Text(copy_bytes(m))));
                },
                None => {},
            }
            let rec = Value::Record(fields);
            proof {
                let fs = rec->Record_0;
                lemma_deep_fields(fs, 0);
                assert(deep_fields(fs, 0) =~= entry_val(self.entries@[i as int])->Record_0);
            }
            let ghost prev = items;
            let ghost grec = rec;
            items.push(rec);
            proof {
                lemma_deep_items(prev, 0);
                lemma_deep_items(items, 0);
                assert(grec.deep() == entry_val(self.entries@[i as int]));
                assert forall|k: int| 0 <= k < i + 1 implies deep_items(items, 0)[k] == entry_val(
                    self.entries@[k],
                ) by {
                    if k < i {
                        assert(items@[k] == prev@[k]);
                        assert(deep_items(prev, 0)[k] == entry_val(self.entries@[k]));
                    } else {
                        assert(items@[k] == grec);
                    }
                }
                assert(deep_items(items, 0) =~= Seq::new(
                    (i + 1) as nat,
                    |k: int| entry_val(self.entries@[k]),
                ));
            }
            i += 1;
        }
        let wrapped = Value::List(items);
        proof {
            assert(wrapped.deep() == logs_val(self.entries@));
        }
        encode(&wrapped)
    }

    /// Empties the buffer.
    pub fn clear(&mut self)
        ensures
            final(self).entries@.len() == 0,
            final(self).max_entries == old(self).max_entries,
    {
        self.entries.clear();
    }
}

} // verus!

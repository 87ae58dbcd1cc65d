//! Ingestion of terminal text into the semantic memory: which chunks are worth embedding,
//! how they are batched, and how stored chunks are named.
use vstd::prelude::*;
use vstd::string::StringExecFns;
use crate::clock::{since_unix_epoch, system_now, whole_millis};
use crate::text::{
    chars_of, char_is_control, decimal, digit_char, is_control, lemma_trim_idempotent,
    push_decimal, push_signed_decimal, signed_decimal, string_of, trim, trim_chars,
};

verus! {

/// A sanitized text chunk produced from PTY input or PTY output.
pub struct SanitizedChunk {
    pub text: String,
}

/// The document stored in the vector store.
pub struct TerminalChunkDoc {
    pub content: String,
}

/// The most chunks embedded together.
pub open spec fn max_batch() -> usize {
    32
}

/// Whether a batch has reached its size limit and must be processed now.
pub fn batch_is_full(len: usize) -> (full: bool)
    ensures
        full == (len >= max_batch()),
{
    len >= 32
}

/// What reaches the embedding worker while it collects a batch.
#[derive(Debug, Clone)]
pub enum WorkerEvent<T> {
    /// A chunk arrived; it joins the batch.
    Chunk(T),
    /// The channel closed: no chunk will come again.
    Closed,
    /// The batch has waited its full time.
    Deadline,
}

/// One step of the worker on its batch: the batch kept afterwards, the batch handed over
/// to be embedded (if any), and whether the worker stops. A chunk joins the batch, which
/// is handed over once it holds the limit; a closed channel hands over a non-empty batch
/// and stops the worker; a deadline hands over a non-empty batch.
pub open spec fn worker_next<T>(batch: Seq<T>, event: WorkerEvent<T>) -> (
    Seq<T>,
    Option<Seq<T>>,
    bool,
) {
    match event {
        WorkerEvent::Chunk(c) => if batch.push(c).len() >= max_batch() {
            (Seq::empty(), Some(batch.push(c)), false)
        } else {
            (batch.push(c), None, false)
        },
        WorkerEvent::Closed => if batch.len() > 0 {
            (Seq::empty(), Some(batch), true)
        } else {
            (batch, None, true)
        },
        WorkerEvent::Deadline => if batch.len() > 0 {
            (Seq::empty(), Some(batch), false)
        } else {
            (batch, None, false)
        },
    }
}

/// The contents of an optional batch.
pub open spec fn batch_view<T>(b: Option<Vec<T>>) -> Option<Seq<T>> {
    match b {
        Some(v) => Some(v@),
        None => None,
    }
}

/// Takes one event into the worker's batch: returns the batch to embed now, if any, and
/// whether the worker stops.
pub fn worker_step<T>(batch: &mut Vec<T>, event: WorkerEvent<T>) -> (r: (Option<Vec<T>>, bool))
    ensures
        final(batch)@ == worker_next(old(batch)@, event).0,
        batch_view(r.0) == worker_next(old(batch)@, event).1,
        r.1 == worker_next(old(batch)@, event).2,
{
    match event {
        WorkerEvent::Chunk(c) => {
            batch.push(c);
            if batch_is_full(batch.len()) {
                let mut full: Vec<T> = Vec::new();
                std::mem::swap(&mut full, batch);
                (Some(full), false)
            } else {
                (None, false)
            }
        },
        WorkerEvent::Closed => {
            if batch.len() > 0 {
                let mut rest: Vec<T> = Vec::new();
                std::mem::swap(&mut rest, batch);
                (Some(rest), true)
            } else {
                (None, true)
            }
        },
        WorkerEvent::Deadline => {
            if batch.len() > 0 {
                let mut due: Vec<T> = Vec::new();
                std::mem::swap(&mut due, batch);
                (Some(due), false)
            } else {
                (None, false)
            }
        },
    }
}

/// The chunks carried by a run of events, in order.
pub open spec fn carried_chunks<T>(events: Seq<WorkerEvent<T>>) -> Seq<T>
    decreases events.len(),
{
    if events.len() == 0 {
        Seq::empty()
    } else {
        match events.last() {
            WorkerEvent::Chunk(c) => carried_chunks(events.drop_last()).push(c),
            _ => carried_chunks(events.drop_last()),
        }
    }
}

/// Batches joined in order.
pub open spec fn joined_batches<T>(batches: Seq<Seq<T>>) -> Seq<T>
    decreases batches.len(),
{
    if batches.len() == 0 {
        Seq::empty()
    } else {
        joined_batches(batches.drop_last()) + batches.last()
    }
}

/// The worker over a run of events from a batch: the batch it holds at the end, the batches
/// it handed over to be embedded, in order, and whether it has stopped. Once stopped it
/// takes no further event.
pub open spec fn worker_run<T>(batch: Seq<T>, events: Seq<WorkerEvent<T>>) -> (
    Seq<T>,
    Seq<Seq<T>>,
    bool,
)
    decreases events.len(),
{
    if events.len() == 0 {
        (batch, Seq::empty(), false)
    } else {
        let (held, done, stopped) = worker_run(batch, events.drop_last());
        if stopped {
            (held, done, true)
        } else {
            let (next, out, stop) = worker_next(held, events.last());
            (
                next,
                match out {
                    Some(b) => done.push(b),
                    None => done,
                },
                stop,
            )
        }
    }
}

/// Whether every batch holds between one chunk and the limit.
pub open spec fn batches_bounded<T>(batches: Seq<Seq<T>>) -> bool {
    forall|i: int| 0 <= i < batches.len() ==> 1 <= #[trigger] batches[i].len() <= max_batch()
}

proof fn lemma_joined_len<T>(batches: Seq<Seq<T>>)
    requires
        batches_bounded(batches),
    ensures
        joined_batches(batches).len() >= batches.len(),
    decreases batches.len(),
{
    if batches.len() > 0 {
        let init = batches.drop_last();
        assert forall|i: int| 0 <= i < init.len() implies 1 <= #[trigger] init[i].len()
            <= max_batch() by {
            assert(init[i] == batches[i]);
        }
        lemma_joined_len(init);
        assert(batches[batches.len() - 1].len() >= 1);
    }
}

/// While the channel stays open, nothing is lost, repeated or reordered: the batches handed
/// over, joined, followed by the batch still held, are the starting batch followed by the
/// chunks that arrived; every batch handed over holds one to the limit of chunks, the batch
/// held stays below the limit, and the worker runs on.
pub proof fn lemma_worker_run_keeps_chunks<T>(batch: Seq<T>, events: Seq<WorkerEvent<T>>)
    requires
        batch.len() < max_batch(),
        forall|i: int| 0 <= i < events.len() ==> !(#[trigger] events[i] is Closed),
    ensures
        ({
            let (held, done, stopped) = worker_run(batch, events);
            &&& !stopped
            &&& held.len() < max_batch()
            &&& joined_batches(done) + held == batch + carried_chunks(events)
            &&& batches_bounded(done)
        }),
    decreases events.len(),
{
    if events.len() == 0 {
        assert(joined_batches(Seq::<Seq<T>>::empty()) + batch == batch);
        assert(batch + carried_chunks(events) == batch);
    } else {
        let init = events.drop_last();
        assert forall|i: int| 0 <= i < init.len() implies !(#[trigger] init[i] is Closed) by {
            assert(init[i] == events[i]);
        }
        lemma_worker_run_keeps_chunks(batch, init);
        let (held, done, stopped) = worker_run(batch, init);
        let e = events.last();
        assert(!(events[events.len() - 1] is Closed));
        let (next, out, stop) = worker_next(held, e);
        match e {
            WorkerEvent::Chunk(c) => {
                assert(carried_chunks(events) == carried_chunks(init).push(c));
                assert(batch + carried_chunks(init).push(c) == (batch + carried_chunks(init)).push(
                    c,
                ));
                if held.push(c).len() >= max_batch() {
                    let d2 = done.push(held.push(c));
                    assert(d2.drop_last() == done);
                    assert(joined_batches(d2) == joined_batches(done) + held.push(c));
                    assert(joined_batches(d2) + Seq::<T>::empty() == joined_batches(d2));
                    assert(joined_batches(done) + held.push(c) == (joined_batches(done)
                        + held).push(c));
                    assert forall|i: int| 0 <= i < d2.len() implies 1 <= #[trigger] d2[i].len()
                        <= max_batch() by {
                        if i < done.len() {
                            assert(d2[i] == done[i]);
                        }
                    }
                } else {
                    assert(joined_batches(done) + held.push(c) == (joined_batches(done)
                        + held).push(c));
                }
            },
            WorkerEvent::Deadline => {
                assert(carried_chunks(events) == carried_chunks(init));
                if held.len() > 0 {
                    let d2 = done.push(held);
                    assert(d2.drop_last() == done);
                    assert(joined_batches(d2) == joined_batches(done) + held);
                    assert(joined_batches(d2) + Seq::<T>::empty() == joined_batches(d2));
                    assert forall|i: int| 0 <= i < d2.len() implies 1 <= #[trigger] d2[i].len()
                        <= max_batch() by {
                        if i < done.len() {
                            assert(d2[i] == done[i]);
                        }
                    }
                }
            },
            WorkerEvent::Closed => {},
        }
    }
}

/// A whole run of the worker: chunks arrive (with deadlines in between) and then the
/// channel closes. The batches embedded, joined in order, are exactly the chunks that
/// arrived; each holds one to the limit of chunks; none is embedded when no chunk came; and
/// the worker stops.
pub proof fn lemma_worker_run_drains<T>(events: Seq<WorkerEvent<T>>)
    requires
        forall|i: int| 0 <= i < events.len() ==> !(#[trigger] events[i] is Closed),
    ensures
        ({
            let (held, done, stopped) = worker_run(
                Seq::<T>::empty(),
                events.push(WorkerEvent::Closed),
            );
            &&& stopped
            &&& joined_batches(done) == carried_chunks(events)
            &&& batches_bounded(done)
            &&& (done.len() == 0 <==> carried_chunks(events).len() == 0)
        }),
{
    lemma_worker_run_keeps_chunks(Seq::<T>::empty(), events);
    let all = events.push(WorkerEvent::<T>::Closed);
    assert(all.drop_last() == events);
    let (held, done, stopped) = worker_run(Seq::<T>::empty(), events);
    assert(Seq::<T>::empty() + carried_chunks(events) == carried_chunks(events));
    let (h2, d2, s2) = worker_run(Seq::<T>::empty(), all);
    if held.len() > 0 {
        assert(d2 == done.push(held));
        assert(d2.drop_last() == done);
        assert(joined_batches(d2) == joined_batches(done) + held);
        assert forall|i: int| 0 <= i < d2.len() implies 1 <= #[trigger] d2[i].len()
            <= max_batch() by {
            if i < done.len() {
                assert(d2[i] == done[i]);
            }
        }
    } else {
        assert(d2 == done);
        assert(joined_batches(done) + held == joined_batches(done));
    }
    lemma_joined_len(d2);
}

/// Whether a trimmed text has the shape of a shell prompt: it ends with `$` or `>` and
/// holds an `@` and a `:`, as in `user@host:path$`.
pub open spec fn prompt_shape(t: Seq<char>) -> bool {
    t.len() > 0 && (t.last() == '$' || t.last() == '>') && t.contains('@') && t.contains(':')
}

/// Whether a text, trimmed, looks like a shell prompt.
pub open spec fn prompt_like(s: Seq<char>) -> bool {
    prompt_shape(trim(s))
}

/// Whether some character is not a control character.
pub open spec fn has_printable(t: Seq<char>) -> bool {
    exists|i: int| 0 <= i < t.len() && !is_control(#[trigger] t[i])
}

/// Whether a chunk is worth embedding: once trimmed it is not empty, does not look like a
/// prompt, and holds at least one character that is not a control character.
pub open spec fn worth_embedding(s: Seq<char>) -> bool {
    let t = trim(s);
    t.len() > 0 && !prompt_like(t) && has_printable(t)
}

/// A text looks like a prompt exactly when, trimmed, it ends with `$` or `>` and holds both
/// an `@` and a `:`; in particular a text whose trimmed form holds no `@` never does.
pub proof fn lemma_prompt_needs_at_and_colon(s: Seq<char>)
    ensures
        prompt_like(s) <==> (trim(s).len() > 0 && (trim(s).last() == '$' || trim(s).last()
            == '>') && (exists|i: int| 0 <= i < trim(s).len() && trim(s)[i] == '@') && (exists|
            i: int,
        | 0 <= i < trim(s).len() && trim(s)[i] == ':')),
        !(exists|i: int| 0 <= i < trim(s).len() && trim(s)[i] == '@') ==> !prompt_like(s),
{
}

/// A chunk is embedded exactly when its trimmed text is not blank, is not prompt-shaped
/// (ending with `$` or `>` and holding `@` and `:`), and holds a character that is not a
/// control character.
pub proof fn lemma_worth_embedding_meaning(s: Seq<char>)
    ensures
        worth_embedding(s) <==> ({
            let t = trim(s);
            &&& t.len() > 0
            &&& !((t.last() == '$' || t.last() == '>') && t.contains('@') && t.contains(':'))
            &&& exists|i: int| 0 <= i < t.len() && !is_control(#[trigger] t[i])
        }),
{
    lemma_trim_idempotent(s);
}

/// A chunk whose trimmed text is not blank, holds a character that is not a control
/// character and holds no `@` is always embedded: it cannot be taken for a prompt.
pub proof fn lemma_text_without_at_is_embedded(s: Seq<char>)
    requires
        trim(s).len() > 0,
        exists|i: int| 0 <= i < trim(s).len() && !is_control(#[trigger] trim(s)[i]),
        forall|i: int| 0 <= i < trim(s).len() ==> trim(s)[i] != '@',
    ensures
        worth_embedding(s),
{
    lemma_trim_idempotent(s);
    assert(!trim(trim(s)).contains('@'));
}

fn chars_contain(v: &[char], c: char) -> (b: bool)
    ensures
        b == v@.contains(c),
{
    let mut i: usize = 0;
    while i < v.len()
        invariant
            i <= v@.len(),
            forall|k: int| 0 <= k < i ==> v@[k] != c,
        decreases v@.len() - i,
    {
        if v[i] == c {
            return true;
        }
        i = i + 1;
    }
    false
}

/// Crude shell-prompt detection: `user@host:path$` or a prompt ending in `>`.
pub fn looks_like_prompt(s: &str) -> (b: bool)
    ensures
        b == prompt_like(s@),
{
    let t = trim_chars(chars_of(s).as_slice());
    if t.len() == 0 {
        return false;
    }
    let last = t[t.len() - 1];
    (last == '$' || last == '>') && chars_contain(t.as_slice(), '@') && chars_contain(
        t.as_slice(),
        ':',
    )
}

/// Whether a chunk of text is worth embedding.
pub fn is_worth_embedding(text: &str) -> (b: bool)
    ensures
        b == worth_embedding(text@),
{
    let t = trim_chars(chars_of(text).as_slice());
    if t.len() == 0 {
        return false;
    }
    let ts = string_of(t.as_slice());
    if looks_like_prompt(ts.as_str()) {
        return false;
    }
    let mut i: usize = 0;
    while i < t.len()
        invariant
            i <= t@.len(),
            t@ == trim(text@),
            t@.len() > 0,
            !prompt_like(t@),
            forall|k: int| 0 <= k < i ==> is_control(#[trigger] t@[k]),
        decreases t@.len() - i,
    {
        if !char_is_control(t[i]) {
            assert(!is_control(t@[i as int]));
            assert(has_printable(t@));
            return true;
        }
        i = i + 1;
    }
    false
}

/// The texts of the chunks worth embedding, in order.
pub open spec fn kept_texts(texts: Seq<Seq<char>>) -> Seq<Seq<char>>
    decreases texts.len(),
{
    if texts.len() == 0 {
        Seq::empty()
    } else if worth_embedding(texts.last()) {
        kept_texts(texts.drop_last()).push(texts.last())
    } else {
        kept_texts(texts.drop_last())
    }
}

/// The documents to embed for a batch: one per chunk worth embedding, in order, holding
/// the chunk's text unchanged.
pub fn documents_to_embed(batch: &Vec<SanitizedChunk>) -> (docs: Vec<TerminalChunkDoc>)
    ensures
        docs@.map_values(|d: TerminalChunkDoc| d.content@) == kept_texts(
            batch@.map_values(|c: SanitizedChunk| c.text@),
        ),
{
    let ghost texts = batch@.map_values(|c: SanitizedChunk| c.text@);
    let mut docs: Vec<TerminalChunkDoc> = Vec::new();
    let mut i: usize = 0;
    while i < batch.len()
        invariant
            i <= batch@.len(),
            texts == batch@.map_values(|c: SanitizedChunk| c.text@),
            docs@.map_values(|d: TerminalChunkDoc| d.content@) == kept_texts(
                texts.take(i as int),
            ),
        decreases batch@.len() - i,
    {
        assert(texts.take(i as int + 1).drop_last() == texts.take(i as int));
        assert(texts.take(i as int + 1).last() == batch@[i as int].text@);
        let ghost before = docs@;
        if is_worth_embedding(batch[i].text.as_str()) {
            docs.push(TerminalChunkDoc { content: batch[i].text.clone() });
            assert(docs@.map_values(|d: TerminalChunkDoc| d.content@) =~= before.map_values(
                |d: TerminalChunkDoc| d.content@,
            ).push(batch@[i as int].text@));
        }
        i = i + 1;
    }
    assert(texts.take(batch@.len() as int) == texts);
    docs
}

/// The identifier of a stored chunk: the time in milliseconds, a dash, and a counter.
pub open spec fn chunk_id_text(millis: i64, counter: u64) -> Seq<char> {
    signed_decimal(millis as int) + "-"@ + decimal(counter as nat)
}

/// Names a stored chunk by the time in milliseconds and a counter.
pub fn chunk_id(millis: i64, counter: u64) -> (id: String)
    ensures
        id@ == chunk_id_text(millis, counter),
{
    let mut id = String::new();
    push_signed_decimal(&mut id, millis);
    id.append("-");
    push_decimal(&mut id, counter);
    id
}

/// Milliseconds since the Unix epoch as an `i64` (wrapping as `as i64` does), with zero
/// standing for a clock that reads before the epoch.
pub open spec fn epoch_millis_i64(millis: Option<u128>) -> i64 {
    match millis {
        Some(m) => m as i64,
        None => 0i64,
    }
}

/// The timestamp for a reading of the milliseconds since the Unix epoch.
pub fn epoch_millis_as_i64(millis: Option<u128>) -> (ms: i64)
    ensures
        ms == epoch_millis_i64(millis),
{
    match millis {
        Some(m) => m as i64,
        None => 0,
    }
}

/// A millisecond-precision Unix timestamp, read from the system clock.
pub fn now_millis() -> (ms: i64)
    ensures
        exists|m: Option<u128>| ms == #[trigger] epoch_millis_i64(m),
{
    let now = system_now();
    let millis = match since_unix_epoch(&now) {
        Some(d) => Some(whole_millis(&d)),
        None => None,
    };
    epoch_millis_as_i64(millis)
}

/// Trimming a chunk first does not change whether it is worth embedding.
pub proof fn lemma_worth_embedding_ignores_surrounding_space(s: Seq<char>)
    ensures
        worth_embedding(trim(s)) == worth_embedding(s),
{
    lemma_trim_idempotent(s);
}

proof fn lemma_digit_char_injective(a: nat, b: nat)
    requires
        a < 10,
        b < 10,
        digit_char(a) == digit_char(b),
    ensures
        a == b,
{
}

proof fn lemma_decimal_shape(n: nat)
    ensures
        decimal(n).len() >= 1,
        forall|i: int| 0 <= i < decimal(n).len() ==> #[trigger] decimal(n)[i] != '-',
    decreases n,
{
    if n >= 10 {
        lemma_decimal_shape(n / 10);
        assert forall|i: int| 0 <= i < decimal(n).len() implies #[trigger] decimal(n)[i] != '-' by {
            if i < decimal(n / 10).len() {
                assert(decimal(n)[i] == decimal(n / 10)[i]);
            }
        }
    }
}

proof fn lemma_decimal_injective(a: nat, b: nat)
    requires
        decimal(a) == decimal(b),
    ensures
        a == b,
    decreases a,
{
    if a < 10 && b < 10 {
        assert(decimal(a) == seq![digit_char(a)]);
        assert(decimal(b) == seq![digit_char(b)]);
        assert(decimal(a)[0] == decimal(b)[0]);
        assert(seq![digit_char(a)][0] == digit_char(a));
        assert(seq![digit_char(b)][0] == digit_char(b));
        lemma_digit_char_injective(a, b);
    } else if a < 10 {
        lemma_decimal_shape(b / 10);
        assert(decimal(b).len() >= 2);
    } else if b < 10 {
        lemma_decimal_shape(a / 10);
        assert(decimal(a).len() >= 2);
    } else {
        assert(decimal(a) == decimal(a / 10).push(digit_char(a % 10)));
        assert(decimal(b) == decimal(b / 10).push(digit_char(b % 10)));
        assert(decimal(a).last() == decimal(b).last());
        assert(decimal(a / 10).push(digit_char(a % 10)).last() == digit_char(a % 10));
        assert(decimal(b / 10).push(digit_char(b % 10)).last() == digit_char(b % 10));
        lemma_digit_char_injective(a % 10, b % 10);
        assert(decimal(a).drop_last() == decimal(a / 10));
        assert(decimal(b).drop_last() == decimal(b / 10));
        lemma_decimal_injective(a / 10, b / 10);
    }
}

proof fn lemma_signed_decimal_injective(a: int, b: int)
    requires
        signed_decimal(a) == signed_decimal(b),
    ensures
        a == b,
{
    lemma_decimal_shape(if a < 0 {
        (-a) as nat
    } else {
        a as nat
    });
    lemma_decimal_shape(if b < 0 {
        (-b) as nat
    } else {
        b as nat
    });
    if a < 0 && b < 0 {
        assert(decimal((-a) as nat) == signed_decimal(a).drop_first());
        assert(decimal((-b) as nat) == signed_decimal(b).drop_first());
        lemma_decimal_injective((-a) as nat, (-b) as nat);
    } else if a < 0 {
        assert(signed_decimal(a)[0] == '-');
        assert(signed_decimal(b)[0] == decimal(b as nat)[0]);
    } else if b < 0 {
        assert(signed_decimal(b)[0] == '-');
        assert(signed_decimal(a)[0] == decimal(a as nat)[0]);
    } else {
        lemma_decimal_injective(a as nat, b as nat);
    }
}

/// Stored-chunk identifiers never collide: two identifiers are equal only when they were
/// made from the same time and the same counter.
pub proof fn lemma_chunk_ids_distinct(m1: i64, c1: u64, m2: i64, c2: u64)
    requires
        chunk_id_text(m1, c1) == chunk_id_text(m2, c2),
    ensures
        m1 == m2,
        c1 == c2,
{
    reveal_strlit("-");
    let x1 = signed_decimal(m1 as int);
    let x2 = signed_decimal(m2 as int);
    let d1 = decimal(c1 as nat);
    let d2 = decimal(c2 as nat);
    let s1 = x1 + "-"@ + d1;
    let s2 = x2 + "-"@ + d2;
    lemma_decimal_shape(c1 as nat);
    lemma_decimal_shape(c2 as nat);
    assert(s1.len() == s2.len());
    if d1.len() < d2.len() {
        let p = s1.len() - d1.len() - 1;
        assert(s1[p] == '-');
        assert(s2[p] == d2[p - x2.len() - 1]);
        assert(false);
    } else if d2.len() < d1.len() {
        let p = s2.len() - d2.len() - 1;
        assert(s2[p] == '-');
        assert(s1[p] == d1[p - x1.len() - 1]);
        assert(false);
    }
    assert(x1.len() == x2.len());
    assert(d1 =~= d2) by {
        assert forall|i: int| 0 <= i < d1.len() implies d1[i] == d2[i] by {
            assert(s1[x1.len() + 1 + i] == d1[i]);
            assert(s2[x2.len() + 1 + i] == d2[i]);
        }
    }
    assert(x1 =~= x2) by {
        assert forall|i: int| 0 <= i < x1.len() implies x1[i] == x2[i] by {
            assert(s1[i] == x1[i]);
            assert(s2[i] == x2[i]);
        }
    }
    lemma_decimal_injective(c1 as nat, c2 as nat);
    lemma_signed_decimal_injective(m1 as int, m2 as int);
}

} // verus!

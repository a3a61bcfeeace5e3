//! Encrypted events and group changes that wait to be processed, and what came
//! of processing them.

use vstd::prelude::*;
use vstd::string::*;

use crate::event::{StoreError, StoreErrorView};
use crate::json::child;
use crate::store::summary::column_text;
use crate::store::Store;
use crate::table::{EventRec, EventRow, Tables, DECRYPT_FAILED, DECRYPT_OK};
use crate::text::str_eq;

verus! {

/// Where the ciphertext of a message is read, in the words of the database.
pub const CIPHERTEXT_COLUMN: &'static str = " at index: 2, name: json_extract(payload, '$.content.ciphertext')";

/// Where the change of a commit is read, in the words of the database.
pub const COMMIT_COLUMN: &'static str = " at index: 2, name: json_extract(payload, '$.content.commit')";

/// An encrypted event that waits to be decrypted.
#[derive(Debug, Clone, PartialEq, Eq)]
pub struct PendingDecrypt {
    pub event_id: String,
    pub room_id: String,
    /// The ciphertext in base64.
    pub ciphertext_b64: String,
}

/// What a [`PendingDecrypt`] holds.
pub struct DecryptView {
    pub event_id: Seq<char>,
    pub room_id: Seq<char>,
    pub ciphertext_b64: Seq<char>,
}

impl View for PendingDecrypt {
    type V = DecryptView;

    open spec fn view(&self) -> DecryptView {
        DecryptView {
            event_id: self.event_id@,
            room_id: self.room_id@,
            ciphertext_b64: self.ciphertext_b64@,
        }
    }
}

/// An encrypted event, or a change of an encryption group, that waits to be
/// processed.
#[derive(Debug, Clone, PartialEq, Eq)]
pub struct PendingMls {
    pub event_id: String,
    pub room_id: String,
    pub sender: String,
    /// Whether this is a change of the group rather than a message.
    pub is_commit: bool,
    /// The ciphertext or the change, in base64.
    pub data_b64: String,
}

/// What a [`PendingMls`] holds.
pub struct MlsView {
    pub event_id: Seq<char>,
    pub room_id: Seq<char>,
    pub sender: Seq<char>,
    pub is_commit: bool,
    pub data_b64: Seq<char>,
}

impl View for PendingMls {
    type V = MlsView;

    open spec fn view(&self) -> MlsView {
        MlsView {
            event_id: self.event_id@,
            room_id: self.room_id@,
            sender: self.sender@,
            is_commit: self.is_commit,
            data_b64: self.data_b64@,
        }
    }
}

/// The values of a list of encrypted events.
pub open spec fn decrypt_views(v: Seq<PendingDecrypt>) -> Seq<DecryptView> {
    Seq::new(v.len(), |i: int| v[i]@)
}

/// The values of a list of inbound items.
pub open spec fn mls_views(v: Seq<PendingMls>) -> Seq<MlsView> {
    Seq::new(v.len(), |i: int| v[i]@)
}

/// Whether an event is a change of an encryption group.
pub open spec fn is_commit(row: EventRec) -> bool {
    row.event_type == "p.mls.commit"@
}

/// Whether an event waits to be processed.
pub open spec fn is_waiting(row: EventRec, commits: bool) -> bool {
    row.decrypt_state == 0 && (row.event_type == "p.room.encrypted"@ || (commits && is_commit(row)))
}

/// The text that is to be processed: the ciphertext of a message, the change of a
/// commit.
pub open spec fn inbound_data(row: EventRec) -> Result<Option<Seq<char>>, StoreErrorView> {
    let content = row.payload.at("content"@);
    if is_commit(row) {
        crate::store::summary::extract_text(content.at("commit"@), COMMIT_COLUMN@)
    } else {
        crate::store::summary::extract_text(content.at("ciphertext"@), CIPHERTEXT_COLUMN@)
    }
}

/// What the rows of encrypted events ask for. A row without a ciphertext is left
/// out.
pub open spec fn decrypts_of(rows: Seq<EventRec>) -> Result<Seq<DecryptView>, StoreErrorView>
    decreases rows.len(),
{
    if rows.len() == 0 {
        Ok(seq![])
    } else {
        match decrypts_of(rows.drop_last()) {
            Err(e) => Err(e),
            Ok(before) => match inbound_data(rows.last()) {
                Err(e) => Err(e),
                Ok(None) => Ok(before),
                Ok(Some(text)) => Ok(
                    before.push(
                        DecryptView {
                            event_id: rows.last().event_id,
                            room_id: rows.last().room_id,
                            ciphertext_b64: text,
                        },
                    ),
                ),
            },
        }
    }
}

/// What the rows of inbound events ask for. A row without data is left out.
pub open spec fn inbound_of(rows: Seq<EventRec>) -> Result<Seq<MlsView>, StoreErrorView>
    decreases rows.len(),
{
    if rows.len() == 0 {
        Ok(seq![])
    } else {
        match inbound_of(rows.drop_last()) {
            Err(e) => Err(e),
            Ok(before) => match inbound_data(rows.last()) {
                Err(e) => Err(e),
                Ok(None) => Ok(before),
                Ok(Some(text)) => Ok(
                    before.push(
                        MlsView {
                            event_id: rows.last().event_id,
                            room_id: rows.last().room_id,
                            sender: rows.last().sender,
                            is_commit: is_commit(rows.last()),
                            data_b64: text,
                        },
                    ),
                ),
            },
        }
    }
}

impl Tables {
    /// The events that wait to be processed, in the order of the history.
    pub open spec fn waiting(self, commits: bool) -> Seq<EventRec> {
        crate::order::order_by(
            self.events.filter(|row: EventRec| is_waiting(row, commits)),
            crate::store::timeline::history_key(),
        )
    }

    /// The database with the event of the given id changed by `change`.
    pub open spec fn with_event(
        self,
        id: Seq<char>,
        change: spec_fn(EventRec) -> EventRec,
    ) -> Tables {
        match crate::table::event_at(self.events, id) {
            Some(row) => Tables {
                events: crate::table::replace_event(self.events, id, change(row)),
                ..self
            },
            None => self,
        }
    }

    /// The database with the text of an encrypted event cached.
    pub open spec fn decrypted(self, id: Seq<char>, text: Seq<char>) -> Tables {
        self.with_event(
            id,
            |row: EventRec|
                EventRec { decrypted: Some(text), decrypt_state: DECRYPT_OK, ..row },
        )
    }

    /// The database with an encrypted event given up.
    pub open spec fn undecryptable(self, id: Seq<char>) -> Tables {
        self.with_event(id, |row: EventRec| EventRec { decrypt_state: DECRYPT_FAILED, ..row })
    }

    /// The database with a change of a group dealt with.
    pub open spec fn commit_processed(self, id: Seq<char>) -> Tables {
        self.with_event(id, |row: EventRec| EventRec { decrypt_state: DECRYPT_OK, ..row })
    }
}

proof fn lemma_decrypts_fault(rows: Seq<EventRec>, n: int)
    requires
        0 <= n <= rows.len(),
        decrypts_of(rows.take(n)) is Err,
    ensures
        decrypts_of(rows) == decrypts_of(rows.take(n)),
    decreases rows.len(),
{
    if n < rows.len() {
        assert(rows.drop_last().take(n) =~= rows.take(n));
        lemma_decrypts_fault(rows.drop_last(), n);
    } else {
        assert(rows.take(n) =~= rows);
    }
}

proof fn lemma_inbound_fault(rows: Seq<EventRec>, n: int)
    requires
        0 <= n <= rows.len(),
        inbound_of(rows.take(n)) is Err,
    ensures
        inbound_of(rows) == inbound_of(rows.take(n)),
    decreases rows.len(),
{
    if n < rows.len() {
        assert(rows.drop_last().take(n) =~= rows.take(n));
        lemma_inbound_fault(rows.drop_last(), n);
    } else {
        assert(rows.take(n) =~= rows);
    }
}

/// The item that a row with data asks for.
pub open spec fn item_of(row: EventRec) -> MlsView {
    MlsView {
        event_id: row.event_id,
        room_id: row.room_id,
        sender: row.sender,
        is_commit: is_commit(row),
        data_b64: inbound_data(row)->Ok_0->0,
    }
}

/// Where rows can be read, each of them can be, and each that has data is an item.
pub proof fn lemma_inbound_of(rows: Seq<EventRec>, k: int)
    requires
        inbound_of(rows) is Ok,
        0 <= k < rows.len(),
    ensures
        inbound_data(rows[k]) is Ok,
        inbound_data(rows[k])->Ok_0 is Some ==> inbound_of(rows)->Ok_0.contains(item_of(rows[k])),
    decreases rows.len(),
{
    let rest = rows.drop_last();
    let before = inbound_of(rest)->Ok_0;
    let all = inbound_of(rows)->Ok_0;
    if k < rows.len() - 1 {
        lemma_inbound_of(rest, k);
        assert(rest[k] == rows[k]);
        if inbound_data(rows[k])->Ok_0 is Some {
            let n = choose|n: int| 0 <= n < before.len() && before[n] == item_of(rows[k]);
            assert(all[n] == before[n]);
        }
    } else if inbound_data(rows[k])->Ok_0 is Some {
        assert(all[before.len() as int] == item_of(rows[k]));
    }
}

/// Rows each of which can be read can be read together.
pub proof fn lemma_inbound_reads(rows: Seq<EventRec>)
    requires
        forall|i: int| 0 <= i < rows.len() ==> inbound_data(#[trigger] rows[i]) is Ok,
    ensures
        inbound_of(rows) is Ok,
    decreases rows.len(),
{
    if rows.len() > 0 {
        let rest = rows.drop_last();
        assert forall|i: int| 0 <= i < rest.len() implies inbound_data(#[trigger] rest[i]) is Ok by {
            assert(rest[i] == rows[i]);
        }
        lemma_inbound_reads(rest);
        assert(inbound_data(rows[rows.len() - 1]) is Ok);
    }
}

/// Each item comes from a row that has data.
pub proof fn lemma_inbound_from(rows: Seq<EventRec>, i: int) -> (k: int)
    requires
        inbound_of(rows) is Ok,
        0 <= i < inbound_of(rows)->Ok_0.len(),
    ensures
        0 <= k < rows.len(),
        inbound_data(rows[k]) is Ok,
        inbound_data(rows[k])->Ok_0 is Some,
        inbound_of(rows)->Ok_0[i] == item_of(rows[k]),
    decreases rows.len(),
{
    let rest = rows.drop_last();
    let before = inbound_of(rest)->Ok_0;
    if i < before.len() {
        let k = lemma_inbound_from(rest, i);
        assert(rest[k] == rows[k]);
        k
    } else {
        rows.len() - 1
    }
}

fn read_inbound(row: &EventRow) -> (r: Result<Option<String>, StoreError>)
    ensures
        match r {
            Ok(s) => inbound_data(row@) == Ok::<Option<Seq<char>>, StoreErrorView>(
                crate::json::opt_string_view(s),
            ),
            Err(e) => inbound_data(row@) == Err::<Option<Seq<char>>, StoreErrorView>(e@),
        },
{
    let content = row.payload.get("content");
    if str_eq(row.event_type.as_str(), "p.mls.commit") {
        column_text(child(content, "commit"), COMMIT_COLUMN)
    } else {
        column_text(child(content, "ciphertext"), CIPHERTEXT_COLUMN)
    }
}

impl Store {
    fn waiting_places(&self, commits: bool) -> (r: Vec<usize>)
        ensures
            crate::order::rows_at(self.tables().events, crate::order::named_places(r@))
                == self.tables().events.filter(|row: EventRec| is_waiting(row, commits)),
            forall|i: int| 0 <= i < r@.len() ==> #[trigger] r@[i] < self.tables().events.len(),
    {
        let ghost events = self.tables().events;
        let ghost keep = |row: EventRec| is_waiting(row, commits);
        let mut picked: Vec<usize> = Vec::new();
        let mut i: usize = 0;
        proof {
            reveal(Seq::filter);
            assert(events.take(0).filter(keep) =~= seq![]);
            assert(crate::order::rows_at(events, crate::order::named_places(picked@)) =~= seq![]);
        }
        while i < self.events.len()
            invariant
                i <= self.events@.len(),
                events == self.tables().events,
                keep == (|row: EventRec| is_waiting(row, commits)),
                crate::order::rows_at(events, crate::order::named_places(picked@)) == events.take(
                    i as int,
                ).filter(keep),
                forall|j: int| 0 <= j < picked@.len() ==> #[trigger] picked@[j] < i,
            decreases self.events@.len() - i,
        {
            let row = &self.events[i];
            let ghost got = crate::order::rows_at(events, crate::order::named_places(picked@));
            if row.decrypt_state == 0 && (str_eq(row.event_type.as_str(), "p.room.encrypted") || (
            commits && str_eq(row.event_type.as_str(), "p.mls.commit"))) {
                picked.push(i);
                assert(crate::order::rows_at(events, crate::order::named_places(picked@))
                    =~= got.push(events[i as int]));
            }
            proof {
                reveal(Seq::filter);
                assert(events.take(i + 1).drop_last() =~= events.take(i as int));
                assert(events.take(i + 1).last() == row@);
            }
            i += 1;
        }
        assert(events.take(i as int) =~= events);
        picked
    }

    /// The encrypted events that were not decrypted yet, in the order of the
    /// history, in which they have to be decrypted.
    pub fn pending_decrypts(&self) -> (r: Result<Vec<PendingDecrypt>, StoreError>)
        ensures
            match r {
                Ok(v) => decrypts_of(self.tables().waiting(false)) == Ok::<
                    Seq<DecryptView>,
                    StoreErrorView,
                >(decrypt_views(v@)),
                Err(e) => decrypts_of(self.tables().waiting(false)) == Err::<
                    Seq<DecryptView>,
                    StoreErrorView,
                >(e@),
            },
    {
        let picked = self.waiting_places(false);
        let order = self.in_history_order(&picked);
        let ghost events = self.tables().events;
        let ghost rows = self.tables().waiting(false);
        let mut out: Vec<PendingDecrypt> = Vec::new();
        let mut i: usize = 0;
        assert(rows.take(0) =~= seq![]);
        assert(decrypt_views(out@) =~= seq![]);
        while i < order.len()
            invariant
                i <= order@.len(),
                events == self.tables().events,
                rows == self.tables().waiting(false),
                rows == crate::order::rows_at(events, crate::order::named_places(order@)),
                forall|j: int| 0 <= j < order@.len() ==> #[trigger] order@[j] < events.len(),
                decrypts_of(rows.take(i as int)) == Ok::<Seq<DecryptView>, StoreErrorView>(
                    decrypt_views(out@),
                ),
            decreases order@.len() - i,
        {
            let row = &self.events[order[i]];
            assert(rows[i as int] == row@);
            assert(rows.take(i + 1).drop_last() =~= rows.take(i as int));
            let ghost before = decrypt_views(out@);
            match read_inbound(row) {
                Err(e) => {
                    proof {
                        lemma_decrypts_fault(rows, i + 1);
                    }
                    return Err(e);
                },
                Ok(None) => {},
                Ok(Some(text)) => {
                    let item = PendingDecrypt {
                        event_id: row.event_id.clone(),
                        room_id: row.room_id.clone(),
                        ciphertext_b64: text,
                    };
                    out.push(item);
                    assert(decrypt_views(out@) =~= before.push(item@));
                },
            }
            i += 1;
        }
        assert(rows.take(i as int) =~= rows);
        Ok(out)
    }

    /// The encrypted events and the changes of groups that were not processed
    /// yet, in the order of the history. Both advance a group's ratchet, so they
    /// share one order.
    pub fn pending_mls(&self) -> (r: Result<Vec<PendingMls>, StoreError>)
        ensures
            match r {
                Ok(v) => inbound_of(self.tables().waiting(true)) == Ok::<
                    Seq<MlsView>,
                    StoreErrorView,
                >(mls_views(v@)),
                Err(e) => inbound_of(self.tables().waiting(true)) == Err::<
                    Seq<MlsView>,
                    StoreErrorView,
                >(e@),
            },
    {
        let picked = self.waiting_places(true);
        let order = self.in_history_order(&picked);
        let ghost events = self.tables().events;
        let ghost rows = self.tables().waiting(true);
        let mut out: Vec<PendingMls> = Vec::new();
        let mut i: usize = 0;
        assert(rows.take(0) =~= seq![]);
        assert(mls_views(out@) =~= seq![]);
        while i < order.len()
            invariant
                i <= order@.len(),
                events == self.tables().events,
                rows == self.tables().waiting(true),
                rows == crate::order::rows_at(events, crate::order::named_places(order@)),
                forall|j: int| 0 <= j < order@.len() ==> #[trigger] order@[j] < events.len(),
                inbound_of(rows.take(i as int)) == Ok::<Seq<MlsView>, StoreErrorView>(
                    mls_views(out@),
                ),
            decreases order@.len() - i,
        {
            let row = &self.events[order[i]];
            assert(rows[i as int] == row@);
            assert(rows.take(i + 1).drop_last() =~= rows.take(i as int));
            let ghost before = mls_views(out@);
            match read_inbound(row) {
                Err(e) => {
                    proof {
                        lemma_inbound_fault(rows, i + 1);
                    }
                    return Err(e);
                },
                Ok(None) => {},
                Ok(Some(text)) => {
                    let item = PendingMls {
                        event_id: row.event_id.clone(),
                        room_id: row.room_id.clone(),
                        sender: row.sender.clone(),
                        is_commit: str_eq(row.event_type.as_str(), "p.mls.commit"),
                        data_b64: text,
                    };
                    out.push(item);
                    assert(mls_views(out@) =~= before.push(item@));
                },
            }
            i += 1;
        }
        assert(rows.take(i as int) =~= rows);
        Ok(out)
    }

    /// Caches the text of an encrypted event, which is then not decrypted again.
    pub fn set_decrypted(&mut self, event_id: &str, plaintext: &str) -> (r: Result<
        (),
        StoreError,
    >)
        requires
            old(self).wf(),
        ensures
            r is Ok,
            final(self).wf(),
            final(self).follows(*old(self)),
            final(self).tables() == old(self).tables().decrypted(event_id@, plaintext@),
    {
        proof {
            crate::store::lemma_follows_itself(*self);
        }
        match self.find_event(event_id) {
            None => {},
            Some(i) => {
                let ghost before = self.tables().events[i as int];
                let mut row = self.events[i].clone();
                row.decrypted = Some(plaintext.to_owned());
                row.decrypt_state = DECRYPT_OK;
                proof {
                    crate::table::lemma_event_at(self.tables().events, event_id@);
                    assert(row@ == (EventRec {
                        decrypted: Some(plaintext@),
                        decrypt_state: DECRYPT_OK,
                        ..before
                    }));
                }
                self.replace_event(i, row);
            },
        }
        Ok(())
    }

    /// Gives an encrypted event up, which is then not tried again.
    pub fn set_decrypt_failed(&mut self, event_id: &str) -> (r: Result<(), StoreError>)
        requires
            old(self).wf(),
        ensures
            r is Ok,
            final(self).wf(),
            final(self).follows(*old(self)),
            final(self).tables() == old(self).tables().undecryptable(event_id@),
    {
        proof {
            crate::store::lemma_follows_itself(*self);
        }
        match self.find_event(event_id) {
            None => {},
            Some(i) => {
                let ghost before = self.tables().events[i as int];
                let mut row = self.events[i].clone();
                row.decrypt_state = DECRYPT_FAILED;
                proof {
                    crate::table::lemma_event_at(self.tables().events, event_id@);
                    assert(row@ == (EventRec { decrypt_state: DECRYPT_FAILED, ..before }));
                }
                self.replace_event(i, row);
            },
        }
        Ok(())
    }

    /// Marks a change of a group as dealt with.
    pub fn set_commit_processed(&mut self, event_id: &str) -> (r: Result<(), StoreError>)
        requires
            old(self).wf(),
        ensures
            r is Ok,
            final(self).wf(),
            final(self).follows(*old(self)),
            final(self).tables() == old(self).tables().commit_processed(event_id@),
    {
        proof {
            crate::store::lemma_follows_itself(*self);
        }
        match self.find_event(event_id) {
            None => {},
            Some(i) => {
                let ghost before = self.tables().events[i as int];
                let mut row = self.events[i].clone();
                row.decrypt_state = DECRYPT_OK;
                proof {
                    crate::table::lemma_event_at(self.tables().events, event_id@);
                    assert(row@ == (EventRec { decrypt_state: DECRYPT_OK, ..before }));
                }
                self.replace_event(i, row);
            },
        }
        Ok(())
    }
}

} // verus!

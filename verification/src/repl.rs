//! A session: the store and the transaction that is pending, and what
//! each line of input does to them.
//!
//! The records that were committed change with `send` alone. Every other
//! command that changes records works on the pending transaction, which
//! it opens where none is open; a session that ends with a transaction
//! open loses its changes.

use crate::db;
use crate::db::Transaction;
use crate::grammar;
use crate::parse;
use crate::parse::{Add, Command, Delete, ParseError, Update};
use crate::resolve::{refusal, resolution_of, tld_to_zone_and_subdomain, ResolveError};
use crate::store::{dropped, Store, ZoneView};
use tldextract::TldExtractor;
use vstd::prelude::*;

verus! {

/// The store and the transaction that is pending on it, if one is.
pub struct Session {
    store: Store,
    optional_tx: Option<Transaction>,
}

/// What a line of input came to.
#[derive(Debug)]
pub enum Reply<'a> {
    /// The line was empty.
    Nothing,
    /// Help was asked for.
    Help,
    /// The pending changes were committed.
    Sent,
    /// The session is to end.
    Quit,
    /// All records were dropped.
    Dropped,
    /// The record was added.
    Added(Add<'a>),
    /// The record was deleted, if it was there.
    Deleted(Delete<'a>),
    /// The name of the record has no zone; nothing was changed.
    Unresolved(Update<'a>, ResolveError),
    /// The line is no command; nothing was changed.
    Rejected(ParseError<'a>),
}

impl Session {
    /// What holds of every session: its store and its transaction are as
    /// every store and transaction are.
    pub closed spec fn wf(&self) -> bool {
        &&& self.store.wf()
        &&& self.optional_tx matches Some(tx) ==> tx.wf()
    }

    /// The records that were committed.
    pub closed spec fn committed(&self) -> Seq<ZoneView> {
        self.store@
    }

    /// The records as the pending transaction would leave them, where one
    /// is open.
    pub closed spec fn pending(&self) -> Option<Seq<ZoneView>> {
        match self.optional_tx {
            Some(tx) => Some(tx@),
            None => None,
        }
    }

    /// The records that the next change works on.
    pub open spec fn working(&self) -> Seq<ZoneView> {
        match self.pending() {
            Some(records) => records,
            None => self.committed(),
        }
    }

    /// Nothing of the session has changed.
    pub open spec fn unchanged(before: Session, after: Session) -> bool {
        after.committed() == before.committed() && after.pending() == before.pending()
    }

    /// The session `after` and the reply are what carrying out `command`
    /// on the session `before` comes to, with `tld_ext` to resolve names.
    ///
    /// `help` and `quit` change nothing. `send` puts the pending records in
    /// the place of the committed ones and closes the transaction. `drop`
    /// leaves a transaction open in which no zone has a record. An `add`
    /// or a `delete` whose name has no zone changes nothing, and the reply
    /// says why the name has none; any other leaves a transaction open
    /// with its change made, in the zone and under the subdomain that the
    /// name resolves to.
    pub open spec fn carried_out(
        before: Session,
        after: Session,
        tld_ext: TldExtractor,
        command: grammar::CommandView,
        reply: Reply,
    ) -> bool {
        match command {
            grammar::CommandView::Help => reply is Help && Self::unchanged(before, after),
            grammar::CommandView::Quit => reply is Quit && Self::unchanged(before, after),
            grammar::CommandView::Send => {
                &&& reply is Sent
                &&& after.pending() is None
                &&& after.committed() == before.working()
            },
            grammar::CommandView::Drop => {
                &&& reply is Dropped
                &&& after.committed() == before.committed()
                &&& after.pending() == Some(dropped(before.working()))
            },
            grammar::CommandView::Update(update) => match resolution_of(tld_ext, update.name()) {
                None => {
                    &&& reply matches Reply::Unresolved(shown, e) && shown@ == update && refusal(
                        tld_ext,
                        update.name(),
                        e,
                    )
                    &&& Self::unchanged(before, after)
                },
                Some((zone, subdomain)) => {
                    &&& after.committed() == before.committed()
                    &&& after.pending() == Some(
                        db::changed(before.working(), update, zone, subdomain),
                    )
                    &&& match update {
                        grammar::UpdateView::Add(r) => reply matches Reply::Added(shown) && shown@
                            == r,
                        grammar::UpdateView::Delete(r) => reply matches Reply::Deleted(shown)
                            && shown@ == r,
                    }
                },
            },
        }
    }

    /// What was committed changes with `send` alone: after any other
    /// command it is what it was.
    pub proof fn lemma_only_send_commits(
        before: Session,
        after: Session,
        tld_ext: TldExtractor,
        command: grammar::CommandView,
        reply: Reply,
    )
        requires
            Self::carried_out(before, after, tld_ext, command, reply),
            !(command is Send),
        ensures
            after.committed() == before.committed(),
    {
    }

    /// A session on `store`, with no transaction open.
    pub fn new(store: Store) -> (session: Session)
        requires
            store.wf(),
        ensures
            session.wf(),
            session.committed() == store@,
            session.pending() is None,
    {
        Session { store, optional_tx: None }
    }

    /// The store that holds the records that were committed.
    pub fn store(&self) -> (store: &Store)
        requires
            self.wf(),
        ensures
            store.wf(),
            store@ == self.committed(),
    {
        &self.store
    }

    /// Whether a transaction is open.
    pub fn is_pending(&self) -> (open: bool)
        ensures
            open == self.pending() is Some,
    {
        self.optional_tx.is_some()
    }

    /// The transaction that is open, which is opened where none is.
    fn open(&mut self) -> (tx: Transaction)
        requires
            old(self).wf(),
        ensures
            tx.wf(),
            tx@ == old(self).working(),
            final(self).store == old(self).store,
            final(self).optional_tx is None,
    {
        let optional_tx = self.optional_tx.take();
        db::optionally_create_transaction(&self.store, optional_tx).unwrap()
    }

    /// Makes the change `update` to the zone and subdomain that its name
    /// was resolved to. Where it was not resolved, nothing changes, no
    /// transaction is opened, and the reply hands the reason on.
    pub fn change<'a>(
        &mut self,
        update: Update<'a>,
        resolved: Result<(String, String), ResolveError>,
    ) -> (reply: Reply<'a>)
        requires
            old(self).wf(),
        ensures
            final(self).wf(),
            final(self).committed() == old(self).committed(),
            match resolved {
                Err(given) => {
                    &&& reply matches Reply::Unresolved(shown, e) && shown@ == update@ && e
                        == given
                    &&& final(self).pending() == old(self).pending()
                },
                Ok((zone, subdomain)) => {
                    &&& final(self).pending() == Some(
                        db::changed(old(self).working(), update@, zone@, subdomain@),
                    )
                    &&& match update {
                        Update::Add(r) => reply matches Reply::Added(shown) && shown@ == r@,
                        Update::Delete(r) => reply matches Reply::Deleted(shown) && shown@ == r@,
                    }
                },
            },
    {
        match resolved {
            Err(e) => Reply::Unresolved(update, e),
            Ok((zone, subdomain)) => {
                let mut tx = self.open();
                let reply = match update {
                    Update::Add(r) => {
                        let shown = Add {
                            name: r.name,
                            ttl: r.ttl,
                            class: r.class,
                            type_: r.type_,
                            data: r.data,
                        };
                        db::add_resolved(r, &mut tx, zone.as_str(), subdomain.as_str());
                        Reply::Added(shown)
                    },
                    Update::Delete(r) => {
                        let shown = Delete { name: r.name, class: r.class, type_: r.type_ };
                        db::delete_resolved(r, &mut tx, zone.as_str(), subdomain.as_str());
                        Reply::Deleted(shown)
                    },
                };
                self.optional_tx = Some(tx);
                reply
            },
        }
    }

    /// Carries out a command. The name of an `add` or a `delete` is
    /// resolved first, and the change is made in the zone and under the
    /// subdomain that it resolves to; a name that has no zone changes
    /// nothing.
    pub fn command<'a>(&mut self, command: Command<'a>, tld_ext: &TldExtractor) -> (reply: Reply<
        'a,
    >)
        requires
            old(self).wf(),
        ensures
            final(self).wf(),
            Self::carried_out(*old(self), *final(self), *tld_ext, command@, reply),
    {
        match command {
            Command::Help => Reply::Help,
            Command::Quit => Reply::Quit,
            Command::Send => {
                let optional_tx = self.optional_tx.take();
                self.optional_tx = db::optionally_commit_transaction(&mut self.store, optional_tx);
                Reply::Sent
            },
            Command::Drop => {
                let mut tx = self.open();
                db::drop(&mut tx);
                self.optional_tx = Some(tx);
                Reply::Dropped
            },
            Command::Update(update) => {
                let name = match &update {
                    Update::Add(r) => r.name,
                    Update::Delete(r) => r.name,
                };
                let resolved = tld_to_zone_and_subdomain(tld_ext, name);
                self.change(update, resolved)
            },
        }
    }

    /// Takes one line of input: an empty line does nothing, a line that
    /// is no command is rejected with the trace of its failure, and a
    /// command is carried out. Only `send` changes what was committed.
    pub fn line<'a>(&mut self, line: &'a str, tld_ext: &TldExtractor) -> (reply: Reply<'a>)
        requires
            old(self).wf(),
        ensures
            final(self).wf(),
            line@.len() == 0 ==> reply is Nothing && Self::unchanged(*old(self), *final(self)),
            line@.len() > 0 ==> match grammar::parse(line@) {
                Err(trace) => reply matches Reply::Rejected(e) && e@ == trace && Self::unchanged(
                    *old(self),
                    *final(self),
                ),
                Ok(command) => Self::carried_out(
                    *old(self),
                    *final(self),
                    *tld_ext,
                    command,
                    reply,
                ),
            },
    {
        if line.is_empty() {
            return Reply::Nothing;
        }
        match parse::parse(line) {
            Err(e) => Reply::Rejected(e),
            Ok(command) => self.command(command, tld_ext),
        }
    }

    /// Ends the session. The store holds what was committed; where a
    /// transaction was open its changes are lost, and the second part of
    /// the result says so.
    pub fn end(self) -> (r: (Store, bool))
        requires
            self.wf(),
        ensures
            r.0.wf(),
            r.0@ == self.committed(),
            r.1 == self.pending() is Some,
    {
        let (_, discarded) = db::optionally_rollback_transaction(self.optional_tx);
        (self.store, discarded)
    }
}

} // verus!

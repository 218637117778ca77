//! Asking an agent for one's own address, and answering such questions.
use rand::RngExt;
use vstd::prelude::*;

use crate::base::addr::{Link, SocketAddr};
use crate::base::cid::ConnectionId;
use crate::base::sorted::SortedTable;
use crate::base::table::{key_of_peer, keys_are_distinct, no_entries, peer_key, Table, TableKey};

verus! {

/// What tells a transaction from others.
#[derive(Clone, Copy, Debug, PartialEq, Eq, Structural)]
pub struct TransactionId {
    pub value: u128,
}

impl TransactionId {
    /// The key of a transaction in a table.
    pub open spec fn key(self) -> TableKey {
        (300, self.value, 0, 0, 0, 0)
    }

    fn table_key(self) -> (key: TableKey)
        ensures
            key == self.key(),
    {
        (300, self.value, 0, 0, 0, 0)
    }
}

/// What a request carries to be recognised by.
#[derive(Clone, Copy, Debug, PartialEq, Eq)]
pub struct CookieId {
    pub bytes: [u8; 8],
}

/// `rand::RngExt::fill` of `rand::rng`: random bytes. Which ones is left to chance. The generator
/// panics where the system has no randomness to seed it with.
#[verifier::external_body]
fn random_bytes() -> (bytes: [u8; 8]) {
    let mut bytes = [0; 8];
    rand::rng().fill(&mut bytes);
    bytes
}

impl CookieId {
    /// A cookie drawn at random; any may come.
    pub fn random() -> (cookie: CookieId)
        ensures
            cookie.bytes@.len() == 8,
    {
        CookieId { bytes: random_bytes() }
    }

    pub fn as_bytes(&self) -> (bytes: &[u8])
        ensures
            bytes@ == self.bytes@,
    {
        self.bytes.as_slice()
    }
}

/// Why a transaction gives no answer.
#[derive(Clone, Copy, Debug, PartialEq, Eq, Structural)]
pub enum StunError {
    /// No socket is bound to the address that the request would go out from.
    NotFound(SocketAddr),
    /// The transaction was cancelled.
    Reset,
    InvalidHeader,
    /// The answer was read before.
    Completed,
}

/// A message is a question or an answer.
#[derive(Clone, Copy, Debug, PartialEq, Eq, Structural)]
pub enum MessageType {
    Request,
    Response,
}

/// What is done with a message.
#[derive(Clone, Copy, Debug, PartialEq, Eq, Structural)]
pub enum StunAction {
    /// It answers the transaction with this handle.
    Obtain(u64),
    /// It is put to the handler; what that returns is sent back.
    Ask,
    Ignore,
}

/// The transactions that wait for an answer, by the caller's handles, and the sockets to ask through.
pub struct StunProtocol {
    pub transactions: Table,
    pub sockets: Table,
    pub server_enabled: bool,
}

impl StunProtocol {
    pub open spec fn waiting(&self, txid: TransactionId) -> Option<u64> {
        self.transactions.at(txid.key())
    }

    pub open spec fn socket_at(&self, bound: SocketAddr) -> Option<u64> {
        self.sockets.at(peer_key(bound))
    }

    pub fn new() -> (protocol: StunProtocol)
        ensures
            protocol.transactions.view() == no_entries(),
            protocol.sockets.view() == no_entries(),
            !protocol.server_enabled,
    {
        StunProtocol { transactions: Table::new(), sockets: Table::new(), server_enabled: false }
    }

    pub fn enable_server(&mut self, enabled: bool)
        ensures
            final(self).server_enabled == enabled,
            final(self).transactions == old(self).transactions,
            final(self).sockets == old(self).sockets,
    {
        self.server_enabled = enabled;
    }

    pub fn server_enabled(&self) -> (enabled: bool)
        ensures
            enabled == self.server_enabled,
    {
        self.server_enabled
    }

    /// Enters a transaction, unless one with the same ID waits already.
    pub fn new_transaction(&mut self, txid: TransactionId, handle: u64) -> (entered: bool)
        ensures
            entered == old(self).waiting(txid) is None,
            final(self).transactions.view() == if entered {
                old(self).transactions.view().insert(txid.key(), handle)
            } else {
                old(self).transactions.view()
            },
            final(self).sockets == old(self).sockets,
            final(self).server_enabled == old(self).server_enabled,
    {
        let key = txid.table_key();
        if self.transactions.get(key).is_some() {
            return false;
        }
        let _ = self.transactions.insert(key, handle);
        true
    }

    /// Ends a transaction.
    pub fn end_transaction(&mut self, txid: TransactionId)
        ensures
            final(self).transactions.view() == old(self).transactions.view().remove(txid.key()),
            final(self).sockets == old(self).sockets,
            final(self).server_enabled == old(self).server_enabled,
    {
        let _ = self.transactions.remove(txid.table_key());
    }

    pub fn register_socket(&mut self, bound: SocketAddr, socket: u64)
        ensures
            final(self).sockets.view() == old(self).sockets.view().insert(peer_key(bound), socket),
            final(self).transactions == old(self).transactions,
            final(self).server_enabled == old(self).server_enabled,
    {
        let _ = self.sockets.insert(key_of_peer(bound), socket);
    }

    /// Withdraws a socket, unless another was registered in its place.
    pub fn unregister_socket(&mut self, bound: SocketAddr, socket: u64)
        ensures
            final(self).sockets.view() == if old(self).socket_at(bound) == Some(socket) {
                old(self).sockets.view().remove(peer_key(bound))
            } else {
                old(self).sockets.view()
            },
            final(self).transactions == old(self).transactions,
            final(self).server_enabled == old(self).server_enabled,
    {
        let _ = self.sockets.remove_if(key_of_peer(bound), socket);
    }

    /// The socket that a request goes out through, if one is bound to its source and `alive`. One
    /// that is not is withdrawn.
    pub fn send_request(&mut self, link: Link, alive: bool) -> (result: Result<u64, StunError>)
        ensures
            result == match old(self).socket_at(link.src) {
                Some(socket) if alive => Ok::<u64, StunError>(socket),
                _ => Err(StunError::NotFound(link.src)),
            },
            final(self).sockets.view() == if alive || old(self).socket_at(link.src) is None {
                old(self).sockets.view()
            } else {
                old(self).sockets.view().remove(peer_key(link.src))
            },
            final(self).transactions == old(self).transactions,
            final(self).server_enabled == old(self).server_enabled,
    {
        let key = key_of_peer(link.src);
        let socket = match self.sockets.get(key) {
            Some(socket) => socket,
            None => return Err(StunError::NotFound(link.src)),
        };
        if alive {
            Ok(socket)
        } else {
            let _ = self.sockets.remove_if(key, socket);
            Err(StunError::NotFound(link.src))
        }
    }

    /// Decides on a message. Questions are answered only where the server is enabled.
    pub fn on_datagram(&self, txid: TransactionId, message: MessageType) -> (action: StunAction)
        ensures
            action == match message {
                MessageType::Response => match self.waiting(txid) {
                    Some(handle) => StunAction::Obtain(handle),
                    None => StunAction::Ignore,
                },
                MessageType::Request => if self.server_enabled {
                    StunAction::Ask
                } else {
                    StunAction::Ignore
                },
            },
    {
        match message {
            MessageType::Response => match self.transactions.get(txid.table_key()) {
                Some(handle) => StunAction::Obtain(handle),
                None => StunAction::Ignore,
            },
            MessageType::Request => if self.server_enabled {
                StunAction::Ask
            } else {
                StunAction::Ignore
            },
        }
    }
}

/// A transaction is found until it ends, and by nobody else's ID.
pub proof fn transactions_do_not_overwrite_each_other(
    before: StunProtocol,
    after: StunProtocol,
    first: TransactionId,
    second: TransactionId,
    handle: u64,
)
    requires
        before.waiting(first) is Some,
        before.waiting(second) is None,
        after.transactions.view() == before.transactions.view().insert(second.key(), handle),
    ensures
        first != second,
        after.waiting(first) == before.waiting(first),
        after.waiting(second) == Some(handle),
{
}

/// A question put to one agent through one socket.
#[derive(Clone, Copy, Debug, PartialEq, Eq)]
pub struct Transaction {
    pub socket: u64,
    pub agent: SocketAddr,
    pub txid: TransactionId,
    pub cookie_id: CookieId,
    pub request: u64,
}

/// The questions that no agent has answered yet.
pub struct PendingRequests {
    pub transactions: SortedTable<Transaction>,
}

impl PendingRequests {
    pub open spec fn wf(&self) -> bool {
        self.transactions.wf()
    }

    pub open spec fn pending(&self, txid: TransactionId) -> Option<Transaction> {
        self.transactions.at(txid.key())
    }

    /// Whether a response answers a question: it must come from the agent that was asked, to the
    /// socket that it was asked through.
    pub open spec fn answered(&self, txid: TransactionId, socket: u64, link: Link) -> bool {
        self.pending(txid) matches Some(transaction) && transaction.agent == link.dst && transaction.socket == socket
    }

    pub fn new() -> (requests: PendingRequests)
        ensures
            requests.wf(),
            requests.transactions.view() == Map::<TableKey, Transaction>::empty(),
    {
        PendingRequests { transactions: SortedTable::new() }
    }

    /// Enters a question before it is sent.
    pub fn start_request(&mut self, transaction: Transaction)
        requires
            old(self).wf(),
        ensures
            final(self).wf(),
            final(self).transactions.view() == old(self).transactions.view().insert(
                transaction.txid.key(),
                transaction,
            ),
    {
        let _ = self.transactions.insert(transaction.txid.table_key(), transaction);
    }

    /// Takes back a question that could not be sent.
    pub fn send_failed(&mut self, txid: TransactionId)
        requires
            old(self).wf(),
        ensures
            final(self).wf(),
            final(self).transactions.view() == old(self).transactions.view().remove(txid.key()),
    {
        let _ = self.transactions.remove(txid.table_key());
    }

    /// Takes a response. The question that it answers is done with.
    pub fn on_response(&mut self, txid: TransactionId, socket: u64, link: Link) -> (answered: Option<Transaction>)
        requires
            old(self).wf(),
        ensures
            final(self).wf(),
            if old(self).answered(txid, socket, link) {
                answered == old(self).pending(txid) && final(self).transactions.view() == old(
                    self,
                ).transactions.view().remove(txid.key())
            } else {
                answered is None && *final(self) == *old(self)
            },
    {
        let key = txid.table_key();
        let transaction = match self.transactions.get(key) {
            Some(transaction) => transaction,
            None => return None,
        };
        if transaction.agent == link.dst && transaction.socket == socket {
            let _ = self.transactions.remove(key);
            Some(transaction)
        } else {
            None
        }
    }
}

/// A question is answered once.
pub proof fn answered_request_is_done(
    before: PendingRequests,
    after: PendingRequests,
    txid: TransactionId,
    socket: u64,
    link: Link,
)
    requires
        before.answered(txid, socket, link),
        after.transactions.view() == before.transactions.view().remove(txid.key()),
    ensures
        !after.answered(txid, socket, link),
{
}

/// A question is answered by a response with its ID that comes from the agent that was asked to the socket that
/// it was asked through, and by no other. Other questions wait on.
pub proof fn question_is_answered_by_whom_it_was_put_to(
    before: PendingRequests,
    after: PendingRequests,
    transaction: Transaction,
    txid: TransactionId,
    socket: u64,
    link: Link,
)
    requires
        after.transactions.view() == before.transactions.view().insert(transaction.txid.key(), transaction),
    ensures
        after.pending(transaction.txid) == Some(transaction),
        after.answered(transaction.txid, socket, link) <==> link.dst == transaction.agent && socket
            == transaction.socket,
        txid != transaction.txid ==> after.pending(txid) == before.pending(txid) && after.answered(txid, socket, link)
            == before.answered(txid, socket, link),
{
}

/// A transaction is found by its own ID, and a socket by the address that it is bound to.
pub proof fn transactions_and_sockets_are_found(
    before: StunProtocol,
    after: StunProtocol,
    txid: TransactionId,
    other: TransactionId,
    handle: u64,
    bound: SocketAddr,
    elsewhere: SocketAddr,
    socket: u64,
)
    requires
        after.transactions.view() == before.transactions.view().insert(txid.key(), handle),
        after.sockets.view() == before.sockets.view().insert(peer_key(bound), socket),
    ensures
        after.waiting(txid) == Some(handle),
        other != txid ==> after.waiting(other) == before.waiting(other),
        after.socket_at(bound) == Some(socket),
        elsewhere != bound ==> after.socket_at(elsewhere) == before.socket_at(elsewhere),
{
    keys_are_distinct(
        ConnectionId { len: 0, head: 0, tail: 0 },
        ConnectionId { len: 0, head: 0, tail: 0 },
        bound,
        elsewhere,
        arbitrary(),
        arbitrary(),
    );
}

} // verus!

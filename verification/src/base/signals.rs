use vstd::prelude::*;

use crate::base::text::{join, optional_text};

verus! {

/// Names with another, if it applies.
pub open spec fn listed(names: Option<Seq<char>>, applies: bool, name: Seq<char>) -> Option<Seq<char>> {
    if applies {
        match names {
            Some(names) => Some(names + " | "@ + name),
            None => Some(name),
        }
    } else {
        names
    }
}

fn list(names: Option<String>, applies: bool, name: &str) -> (longer: Option<String>)
    ensures
        optional_text(longer) == listed(optional_text(names), applies, name@),
{
    if !applies {
        return names;
    }
    match names {
        Some(names) => {
            let open = join(names.as_str(), " | ");
            Some(join(open.as_str(), name))
        },
        None => Some(name.to_owned()),
    }
}

/// Reasons for which a sender may be waiting, or may be woken.
#[derive(Clone, Copy, Debug, PartialEq, Eq, Structural)]
pub struct Signals {
    pub congestion: bool,
    pub credit: bool,
    pub transport: bool,
    pub keys: bool,
    pub connection_id: bool,
    pub path_validate: bool,
    pub ping: bool,
}

impl Signals {
    pub open spec fn none() -> Signals {
        Signals {
            congestion: false,
            credit: false,
            transport: false,
            keys: false,
            connection_id: false,
            path_validate: false,
            ping: false,
        }
    }

    pub open spec fn every() -> Signals {
        Signals {
            congestion: true,
            credit: true,
            transport: true,
            keys: true,
            connection_id: true,
            path_validate: true,
            ping: true,
        }
    }

    pub open spec fn only_congestion() -> Signals {
        Signals { congestion: true, ..Signals::none() }
    }

    pub open spec fn only_credit() -> Signals {
        Signals { credit: true, ..Signals::none() }
    }

    pub open spec fn only_transport() -> Signals {
        Signals { transport: true, ..Signals::none() }
    }

    pub open spec fn only_connection_id() -> Signals {
        Signals { connection_id: true, ..Signals::none() }
    }

    pub open spec fn only_path_validate() -> Signals {
        Signals { path_validate: true, ..Signals::none() }
    }

    pub open spec fn join(self, other: Signals) -> Signals {
        Signals {
            congestion: self.congestion || other.congestion,
            credit: self.credit || other.credit,
            transport: self.transport || other.transport,
            keys: self.keys || other.keys,
            connection_id: self.connection_id || other.connection_id,
            path_validate: self.path_validate || other.path_validate,
            ping: self.ping || other.ping,
        }
    }

    /// The names of the signals, those of one after the other.
    pub open spec fn names(self) -> Option<Seq<char>> {
        let names = None::<Seq<char>>;
        let names = listed(names, self.congestion, "CONGESTION"@);
        let names = listed(names, self.credit, "CREDIT"@);
        let names = listed(names, self.transport, "TRANSPORT"@);
        let names = listed(names, self.keys, "KEYS"@);
        let names = listed(names, self.connection_id, "CONNECTION_ID"@);
        let names = listed(names, self.path_validate, "PATH_VALIDATE"@);
        listed(names, self.ping, "PING"@)
    }

    /// The signals in words.
    pub open spec fn described(self) -> Seq<char> {
        "Signals("@ + (match self.names() {
            Some(names) => names,
            None => "0x0"@,
        }) + ")"@
    }

    /// Puts the signals in words.
    pub fn describe(self) -> (text: String)
        ensures
            text@ == self.described(),
    {
        let names: Option<String> = list(None, self.congestion, "CONGESTION");
        let names = list(names, self.credit, "CREDIT");
        let names = list(names, self.transport, "TRANSPORT");
        let names = list(names, self.keys, "KEYS");
        let names = list(names, self.connection_id, "CONNECTION_ID");
        let names = list(names, self.path_validate, "PATH_VALIDATE");
        let inner = match list(names, self.ping, "PING") {
            Some(names) => names,
            None => "0x0".to_owned(),
        };
        let open = join("Signals(", inner.as_str());
        join(open.as_str(), ")")
    }

    pub fn empty() -> (signals: Signals)
        ensures
            signals == Signals::none(),
    {
        Signals {
            congestion: false,
            credit: false,
            transport: false,
            keys: false,
            connection_id: false,
            path_validate: false,
            ping: false,
        }
    }

    pub fn all() -> (signals: Signals)
        ensures
            signals == Signals::every(),
    {
        Signals {
            congestion: true,
            credit: true,
            transport: true,
            keys: true,
            connection_id: true,
            path_validate: true,
            ping: true,
        }
    }

    pub fn congestion() -> (signals: Signals)
        ensures
            signals == Signals::only_congestion(),
    {
        let mut signals = Signals::empty();
        signals.congestion = true;
        signals
    }

    pub fn credit() -> (signals: Signals)
        ensures
            signals == Signals::only_credit(),
    {
        let mut signals = Signals::empty();
        signals.credit = true;
        signals
    }

    pub fn transport() -> (signals: Signals)
        ensures
            signals == Signals::only_transport(),
    {
        let mut signals = Signals::empty();
        signals.transport = true;
        signals
    }

    pub fn connection_id() -> (signals: Signals)
        ensures
            signals == Signals::only_connection_id(),
    {
        let mut signals = Signals::empty();
        signals.connection_id = true;
        signals
    }

    pub fn path_validate() -> (signals: Signals)
        ensures
            signals == Signals::only_path_validate(),
    {
        let mut signals = Signals::empty();
        signals.path_validate = true;
        signals
    }

    pub fn union(self, other: Signals) -> (signals: Signals)
        ensures
            signals == self.join(other),
    {
        Signals {
            congestion: self.congestion || other.congestion,
            credit: self.credit || other.credit,
            transport: self.transport || other.transport,
            keys: self.keys || other.keys,
            connection_id: self.connection_id || other.connection_id,
            path_validate: self.path_validate || other.path_validate,
            ping: self.ping || other.ping,
        }
    }
}

/// Each signal stands for one reason, and signals that are joined stand for all reasons of either.
pub proof fn signals_tell_reasons_apart(left: Signals, right: Signals)
    ensures
        forall|signals: Signals| #[trigger] signals.join(Signals::none()) == signals,
        Signals::only_congestion().congestion && !Signals::only_congestion().credit
            && !Signals::only_congestion().transport && !Signals::only_congestion().keys
            && !Signals::only_congestion().connection_id && !Signals::only_congestion().path_validate
            && !Signals::only_congestion().ping,
        Signals::only_credit().credit && !Signals::only_credit().congestion && !Signals::only_credit().transport
            && !Signals::only_credit().keys && !Signals::only_credit().connection_id
            && !Signals::only_credit().path_validate && !Signals::only_credit().ping,
        Signals::only_transport().transport && !Signals::only_transport().congestion
            && !Signals::only_transport().credit && !Signals::only_transport().keys
            && !Signals::only_transport().connection_id && !Signals::only_transport().path_validate
            && !Signals::only_transport().ping,
        Signals::only_connection_id().connection_id && !Signals::only_connection_id().congestion
            && !Signals::only_connection_id().credit && !Signals::only_connection_id().transport
            && !Signals::only_connection_id().keys && !Signals::only_connection_id().path_validate
            && !Signals::only_connection_id().ping,
        Signals::only_path_validate().path_validate && !Signals::only_path_validate().congestion
            && !Signals::only_path_validate().credit && !Signals::only_path_validate().transport
            && !Signals::only_path_validate().keys && !Signals::only_path_validate().connection_id
            && !Signals::only_path_validate().ping,
        left.join(right).congestion <==> left.congestion || right.congestion,
        left.join(right).credit <==> left.credit || right.credit,
        left.join(right).transport <==> left.transport || right.transport,
        left.join(right).keys <==> left.keys || right.keys,
        left.join(right).connection_id <==> left.connection_id || right.connection_id,
        left.join(right).path_validate <==> left.path_validate || right.path_validate,
        left.join(right).ping <==> left.ping || right.ping,
        left.join(Signals::every()) == Signals::every(),
        Signals::every().congestion && Signals::every().credit && Signals::every().transport && Signals::every().keys
            && Signals::every().connection_id && Signals::every().path_validate && Signals::every().ping,
        Signals::none() != Signals::every(),
{
}

} // verus!

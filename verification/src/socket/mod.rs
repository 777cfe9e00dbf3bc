//! The WebSocket side of the server: the registry of connections and the
//! decisions taken when a socket opens or closes.
pub mod connection;

use vstd::prelude::*;

use crate::socket::connection::{
    format_named, opt_view, sender_is_closed, ConnectionFormat, ConnectionMap, QueryParams,
};
use crate::text::{split_on, split_str, strings_view, trim, trim_str};

verus! {

/// One comma-separated field of a subscription list: its trimmed text,
/// unless that is empty.
pub open spec fn subscription_field(p: Seq<char>) -> Option<Seq<char>> {
    if trim(p).len() > 0 {
        Some(trim(p))
    } else {
        None
    }
}

/// The channels named by a comma-separated subscription list, trimmed,
/// empty fields left out.
pub open spec fn subscription_list(s: Seq<char>) -> Seq<Seq<char>> {
    split_on(s, ',').filter_map(|p: Seq<char>| subscription_field(p))
}

pub struct CnctdSocket;

impl CnctdSocket {
    /// The channels of an inline registration's `subscriptions` query
    /// parameter: `s.split(',')`, each trimmed, empty ones left out.
    pub fn parse_subscriptions(s: &str) -> (r: Vec<String>)
        ensures
            strings_view(r@) == subscription_list(s@),
    {
        let pieces = split_str(s, ',');
        let ghost pv = strings_view(pieces@);
        let ghost f = |p: Seq<char>| subscription_field(p);
        let mut out: Vec<String> = Vec::new();
        let mut i: usize = 0;
        assert(pv.take(0) =~= Seq::<Seq<char>>::empty());
        while i < pieces.len()
            invariant
                pv == strings_view(pieces@),
                pv == split_on(s@, ','),
                f == (|p: Seq<char>| subscription_field(p)),
                i <= pieces@.len(),
                strings_view(out@) == pv.take(i as int).filter_map(f),
            decreases pieces@.len() - i,
        {
            let t = trim_str(pieces[i].as_str());
            proof {
                let tk = pv.take(i as int + 1);
                assert(tk.drop_last() =~= pv.take(i as int));
                assert(tk.last() == pieces@[i as int]@);
            }
            if t.unicode_len() > 0 {
                let ghost before = strings_view(out@);
                out.push(String::from_str(t));
                assert(strings_view(out@) =~= before + seq![t@]);
            }
            i = i + 1;
        }
        assert(pv.take(pieces@.len() as int) =~= pv);
        out
    }

    /// Removes the connection `connection_id` when it is stale: no socket is
    /// attached to it, or `closed` (its socket's channel has closed).
    pub fn remove_if_stale<M>(connections: &mut ConnectionMap<M>, connection_id: &str, closed: bool)
        requires
            old(connections).wf(),
        ensures
            final(connections).wf(),
            final(connections)@ == if old(connections)@.contains_key(connection_id@) && (!old(
                connections,
            )@[connection_id@].connected || closed) {
                old(connections)@.remove(connection_id@)
            } else {
                old(connections)@
            },
    {
        let stale = match connections.get(connection_id) {
            Some(connection) => connection.sender.is_none() || closed,
            None => false,
        };
        if stale {
            connections.remove(connection_id);
        }
    }

    /// Removes the connection `connection_id` when no socket is attached to
    /// it or its socket has closed; a connection whose socket is open stays.
    /// Whether the socket has closed is asked of the sender the map holds.
    pub fn remove_connection<M>(connections: &mut ConnectionMap<M>, connection_id: &str)
        requires
            old(connections).wf(),
        ensures
            final(connections).wf(),
            !old(connections)@.contains_key(connection_id@) ==> final(connections)@ == old(
                connections,
            )@,
            old(connections)@.contains_key(connection_id@) && !old(
                connections,
            )@[connection_id@].connected ==> final(connections)@ == old(connections)@.remove(
                connection_id@,
            ),
            final(connections)@ == old(connections)@ || final(connections)@ == old(
                connections,
            )@.remove(connection_id@),
    {
        let closed = match connections.get(connection_id) {
            Some(connection) => match &connection.sender {
                Some(sender) => sender_is_closed(sender),
                None => false,
            },
            None => false,
        };
        Self::remove_if_stale(connections, connection_id, closed);
    }

    /// The ids of `ids` in order, without `exclude` when one is given.
    pub fn without_id(ids: Vec<String>, exclude: Option<&str>) -> (r: Vec<String>)
        ensures
            strings_view(r@) == strings_view(ids@).filter(|k: Seq<char>| opt_str(exclude) != Some(k)),
    {
        let ghost f = |k: Seq<char>| opt_str(exclude) != Some(k);
        let ghost v = strings_view(ids@);
        let ex: Option<String> = match exclude {
            Some(e) => Some(String::from_str(e)),
            None => None,
        };
        let mut out: Vec<String> = Vec::new();
        let mut i: usize = 0;
        proof {
            reveal(Seq::filter);
            assert(v.take(0) =~= Seq::<Seq<char>>::empty());
        }
        while i < ids.len()
            invariant
                v == strings_view(ids@),
                f == (|k: Seq<char>| opt_str(exclude) != Some(k)),
                i <= ids@.len(),
                match ex {
                    Some(e) => opt_str(exclude) == Some(e@),
                    None => opt_str(exclude) is None,
                },
                strings_view(out@) == v.take(i as int).filter(f),
            decreases ids@.len() - i,
        {
            proof {
                reveal(Seq::filter);
                let tk = v.take(i as int + 1);
                assert(tk.drop_last() =~= v.take(i as int));
                assert(tk.last() == ids@[i as int]@);
            }
            let keep = match &ex {
                Some(e) => !(ids[i] == *e),
                None => true,
            };
            if keep {
                let ghost before = strings_view(out@);
                out.push(ids[i].clone());
                assert(strings_view(out@) =~= before.push(ids@[i as int]@));
            }
            i = i + 1;
        }
        assert(v.take(ids@.len() as int) =~= v);
        out
    }

    /// What a socket request's query asks for: the connection it names;
    /// else a new connection for the subscriptions it lists, in the format
    /// it names; else nothing, and the request is refused.
    pub fn choose_connection(params: QueryParams) -> (r: ConnectionChoice)
        ensures
            match params.connection_id {
                Some(id) => r == ConnectionChoice::Existing(id),
                None => match params.subscriptions {
                    Some(s) => r matches ConnectionChoice::Register(subs, format) && strings_view(
                        subs@,
                    ) == subscription_list(s@) && format == format_named(opt_view(params.format)),
                    None => r == ConnectionChoice::Reject,
                },
            },
    {
        let QueryParams { connection_id, subscriptions, format } = params;
        match connection_id {
            Some(id) => ConnectionChoice::Existing(id),
            None => match subscriptions {
                Some(s) => {
                    let subs = Self::parse_subscriptions(s.as_str());
                    let f = match &format {
                        Some(t) => ConnectionFormat::from_str_opt(Some(t.as_str())),
                        None => ConnectionFormat::from_str_opt(None),
                    };
                    ConnectionChoice::Register(subs, f)
                },
                None => ConnectionChoice::Reject,
            },
        }
    }
}

/// The text of an optional string.
pub open spec fn opt_str(e: Option<&str>) -> Option<Seq<char>> {
    match e {
        Some(t) => Some(t@),
        None => None,
    }
}

/// What a socket request asks for.
#[derive(Debug)]
pub enum ConnectionChoice {
    /// The registered connection of this id.
    Existing(String),
    /// A new connection with these subscriptions and this format.
    Register(Vec<String>, ConnectionFormat),
    /// No connection: the request is refused.
    Reject,
}

} // verus!

//! The logic of the command surface: joining name tokens, and turning an
//! upsert, rename or tui invocation into store operations or a target.

use vstd::prelude::*;
use crate::key::key_of;
use crate::order::views;
use crate::status::{invalid_prefix, status_of_token, AgentStatus, StatusParseError};
use crate::store::{
    opt_view, rename_session, rename_spec, upsert_pane, upsert_pane_spec, upsert_session,
    upsert_session_spec, Store,
};
use crate::text::{lower_of, push_char, trim_of};

verus! {

/// The tokens joined by single spaces.
pub open spec fn joined(s: Seq<Seq<char>>) -> Seq<char>
    decreases s.len(),
{
    if s.len() == 0 {
        Seq::empty()
    } else if s.len() == 1 {
        s[0]
    } else {
        joined(s.drop_last()) + seq![' '] + s.last()
    }
}

/// Joins the tokens of a multi-word argument with single spaces.
pub fn join_tokens(tokens: Vec<String>) -> (r: String)
    ensures
        r@ == joined(views(tokens@)),
{
    let ghost t = views(tokens@);
    let mut r = String::new();
    let mut i: usize = 0;
    while i < tokens.len()
        invariant
            i <= tokens@.len(),
            t == views(tokens@),
            r@ == joined(t.subrange(0, i as int)),
        decreases tokens@.len() - i,
    {
        proof {
            let next = t.subrange(0, i as int + 1);
            assert(next.drop_last() =~= t.subrange(0, i as int));
            assert(next.last() == tokens@[i as int]@);
            if i == 0 {
                assert(next.len() == 1);
                assert(r@ =~= Seq::<char>::empty());
            }
        }
        if i > 0 {
            push_char(&mut r, ' ');
        }
        r.append(tokens[i].as_str());
        proof {
            let next = t.subrange(0, i as int + 1);
            if i == 0 {
                assert(r@ =~= next[0]);
            } else {
                assert(r@ =~= joined(next.drop_last()) + seq![' '] + next.last());
            }
        }
        i = i + 1;
    }
    proof {
        assert(t.subrange(0, tokens@.len() as int) =~= t);
    }
    r
}

/// What the status argument of an upsert reads as: nothing, a status, or
/// nothing valid.
pub open spec fn status_arg(status: Option<String>) -> Option<Option<AgentStatus>> {
    match status {
        Some(s) => match status_of_token(lower_of(trim_of(s@))) {
            Some(x) => Some(Some(x)),
            None => None,
        },
        None => Some(None),
    }
}

/// Runs an upsert: a pane upsert when a pane id is given, else a session
/// upsert. An unreadable status fails the command and leaves the store as
/// it was.
pub fn handle_upsert(
    contexts: &mut Store,
    session_name: Vec<String>,
    session_id: Option<String>,
    pane_id: Option<String>,
    status: Option<String>,
    context: Option<Vec<String>>,
) -> (r: Result<(), StatusParseError>)
    requires
        old(contexts).wf(),
    ensures
        final(contexts).wf(),
        r is Err <==> status_arg(status) is None,
        r matches Err(e) ==> *final(contexts) == *old(contexts) && e.0@ == invalid_prefix() + lower_of(trim_of(status->0@)),
        r is Ok ==> match pane_id {
            Some(p) => final(contexts)@ == upsert_pane_spec(
                old(contexts)@,
                key_of(joined(views(session_name@))),
                joined(views(session_name@)),
                p@,
                status_arg(status)->0,
            ),
            None => final(contexts)@ == upsert_session_spec(
                old(contexts)@,
                key_of(joined(views(session_name@))),
                joined(views(session_name@)),
                opt_view(session_id),
                status_arg(status)->0,
                match context {
                    Some(c) => Some(joined(views(c@))),
                    None => None,
                },
            ),
        },
{
    let parsed = match &status {
        Some(s) => match AgentStatus::parse(s.as_str()) {
            Ok(x) => Some(x),
            Err(e) => {
                return Err(e);
            },
        },
        None => None,
    };
    let name = join_tokens(session_name);
    let text = match context {
        Some(c) => Some(join_tokens(c)),
        None => None,
    };
    match pane_id {
        Some(p) => {
            upsert_pane(contexts, name.as_str(), p.as_str(), parsed);
        },
        None => {
            let _ = upsert_session(contexts, name, session_id, parsed, text);
        },
    }
    Ok(())
}

/// Runs a rename: the session last seen with `session_id` takes the joined
/// name.
pub fn handle_rename(contexts: &mut Store, session_id: &str, session_name: Vec<String>)
    requires
        old(contexts).wf(),
    ensures
        final(contexts).wf(),
        final(contexts)@ == rename_spec(
            old(contexts).entries@,
            session_id@,
            joined(views(session_name@)),
            key_of(joined(views(session_name@))),
        ),
{
    let name = join_tokens(session_name);
    rename_session(contexts, session_id, name.as_str());
}

/// An argument that the pane-status selector needs and did not get.
#[derive(Debug, Clone, Copy, PartialEq, Eq, Structural)]
pub enum MissingArgument {
    SessionName,
    PaneId,
}

impl MissingArgument {
    /// The message reported for the missing argument.
    pub fn message(&self) -> (r: String)
        ensures
            r@.len() > 0,
    {
        match self {
            MissingArgument::SessionName => {
                let r = String::from_str("Missing --session-name");
                proof {
                    reveal_strlit("Missing --session-name");
                }
                r
            },
            MissingArgument::PaneId => {
                let r = String::from_str("Missing --pane-id");
                proof {
                    reveal_strlit("Missing --pane-id");
                }
                r
            },
        }
    }
}

/// What the tui command opens: the navigator (`None`), or the pane-status
/// selector for a session name and pane id, which it then requires.
pub fn handle_tui(pane_state: bool, session_name: Option<Vec<String>>, pane_id: Option<String>) -> (r: Result<
    Option<(String, String)>,
    MissingArgument,
>)
    ensures
        !pane_state ==> r == Ok::<Option<(String, String)>, MissingArgument>(None),
        pane_state && session_name is None ==> r == Err::<Option<(String, String)>, MissingArgument>(MissingArgument::SessionName),
        pane_state && session_name is Some && pane_id is None ==> r == Err::<Option<(String, String)>, MissingArgument>(MissingArgument::PaneId),
        pane_state && session_name is Some && pane_id is Some ==> (r matches Ok(Some(t))
            && t.0@ == joined(views(session_name->0@))
            && t.1@ == pane_id->0@),
{
    if !pane_state {
        return Ok(None);
    }
    let name = match session_name {
        Some(tokens) => join_tokens(tokens),
        None => {
            return Err(MissingArgument::SessionName);
        },
    };
    match pane_id {
        Some(p) => Ok(Some((name, p))),
        None => Err(MissingArgument::PaneId),
    }
}

} // verus!

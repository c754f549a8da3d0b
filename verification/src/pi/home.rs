//! Where Pi keeps its sessions, and its sessions as any others.

use crate::paths::{below, join_path};
use crate::pi::session::SessionInfo;
use crate::provider::{Provider, Session};
use vstd::prelude::*;

verus! {

/// The directory of Pi: the one that is asked for, or the usual one below the
/// home directory.
pub open spec fn data_dir_in(custom: Option<Seq<char>>, home: Option<Seq<char>>) -> Seq<char> {
    match custom {
        Some(dir) if dir.len() > 0 => dir,
        _ => below(below(home->0, ".pi"@), "agent"@),
    }
}

/// The directory of Pi, given the one that is asked for and the home directory.
pub fn pi_data_dir(custom: Option<&str>, home: Option<&str>) -> (r: String)
    requires
        (custom is Some && custom->0@.len() > 0) || home is Some,
    ensures
        r@ == data_dir_in(custom.deep_view(), home.deep_view()),
{
    match custom {
        Some(dir) => {
            if !dir.is_empty() {
                return dir.to_string();
            }
        },
        None => {},
    }
    match home {
        Some(h) => join_path(join_path(h, ".pi").as_str(), "agent"),
        None => String::new(),
    }
}

/// The directory of sessions below the directory of Pi.
pub fn sessions_dir(data_dir: &str) -> (r: String)
    ensures
        r@ == below(data_dir@, "sessions"@),
{
    join_path(data_dir, "sessions")
}

/// What is known of a session of Pi, as for any session.
pub fn as_session(info: SessionInfo) -> (r: Session)
    ensures
        r.session_id@ == info.session_id@,
        r.provider == Provider::Pi,
        r.started_at == info.started_at,
        r.updated_at == info.updated_at,
        r.project_dir@ == info.project_dir@,
        r.title@ == info.title@,
        r.parent_id.deep_view() == info.parent_id.deep_view(),
{
    Session {
        session_id: info.session_id,
        provider: Provider::Pi,
        started_at: info.started_at,
        updated_at: info.updated_at,
        project_dir: info.project_dir,
        title: info.title,
        parent_id: info.parent_id,
    }
}

/// What is kept for Pi lies where it is told, and by default in the home directory.
pub proof fn data_lies_in_the_home_by_default(custom: Option<Seq<char>>, home: Seq<char>)
    ensures
        custom matches Some(dir) ==> (dir.len() > 0 ==> data_dir_in(custom, Some(home)) == dir),
        custom is None || custom->0.len() == 0 ==> data_dir_in(custom, Some(home)) == below(
            below(home, ".pi"@),
            "agent"@,
        ),
{
}

/// A session of Pi is what was read of it, under its own harness.
pub proof fn sessions_of_pi_are_what_was_read(info: SessionInfo, r: Session)
    requires
        call_ensures(as_session, (info,), r),
    ensures
        r.provider == Provider::Pi,
        r.session_id@ == info.session_id@,
        r.project_dir@ == info.project_dir@,
        r.title@ == info.title@,
        r.started_at == info.started_at,
        r.updated_at == info.updated_at,
        r.parent_id is Some <==> info.parent_id is Some,
        r.parent_id is Some ==> r.parent_id->0@ == info.parent_id->0@,
{
}

} // verus!

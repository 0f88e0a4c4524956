//! The control protocol: the request and response variants carried over
//! the control socket, and the parsing of a client's command line.

use vstd::prelude::*;

use crate::text::{dec_digits_of, dec_val, is_dec_usize, parse_usize, split_ws, str_eq, tokens};

verus! {

/// A request to the daemon.
#[derive(Debug)]
pub enum TaskmasterDaemonRequest {
    /// Return the aggregate status text.
    Status,
    /// Reparse every loaded source and reconcile.
    Reload,
    /// Stop, then start, every task.
    Restart,
    /// Start the identified task.
    StartTask(usize),
    /// Gracefully stop the identified task.
    StopTask(usize),
    /// Stop, then start, the identified task.
    RestartTask(usize),
    /// Return the identified task's options and status.
    InfoTask(usize),
    /// Load the source at this path.
    LoadFile(String),
    /// Unload the source at this path.
    UnloadFile(String),
}

/// Mathematical view of [`TaskmasterDaemonRequest`].
pub enum RequestView {
    Status,
    Reload,
    Restart,
    StartTask(usize),
    StopTask(usize),
    RestartTask(usize),
    InfoTask(usize),
    LoadFile(Seq<char>),
    UnloadFile(Seq<char>),
}

impl View for TaskmasterDaemonRequest {
    type V = RequestView;

    open spec fn view(&self) -> RequestView {
        match self {
            TaskmasterDaemonRequest::Status => RequestView::Status,
            TaskmasterDaemonRequest::Reload => RequestView::Reload,
            TaskmasterDaemonRequest::Restart => RequestView::Restart,
            TaskmasterDaemonRequest::StartTask(id) => RequestView::StartTask(*id),
            TaskmasterDaemonRequest::StopTask(id) => RequestView::StopTask(*id),
            TaskmasterDaemonRequest::RestartTask(id) => RequestView::RestartTask(*id),
            TaskmasterDaemonRequest::InfoTask(id) => RequestView::InfoTask(*id),
            TaskmasterDaemonRequest::LoadFile(p) => RequestView::LoadFile(p@),
            TaskmasterDaemonRequest::UnloadFile(p) => RequestView::UnloadFile(p@),
        }
    }
}

/// A response from the daemon.
#[derive(Debug)]
pub enum TaskmasterDaemonResult {
    /// The command completed, with no text body.
    Success,
    /// The command completed, with a short message.
    OkMsg(String),
    /// The command completed; the body is printed verbatim.
    Raw(String),
    /// The command failed.
    ErrMsg(String),
}

/// Mathematical view of [`TaskmasterDaemonResult`].
pub enum ResultView {
    Success,
    OkMsg(Seq<char>),
    Raw(Seq<char>),
    ErrMsg(Seq<char>),
}

impl View for TaskmasterDaemonResult {
    type V = ResultView;

    open spec fn view(&self) -> ResultView {
        match self {
            TaskmasterDaemonResult::Success => ResultView::Success,
            TaskmasterDaemonResult::OkMsg(s) => ResultView::OkMsg(s@),
            TaskmasterDaemonResult::Raw(s) => ResultView::Raw(s@),
            TaskmasterDaemonResult::ErrMsg(s) => ResultView::ErrMsg(s@),
        }
    }
}

/// Why a command line was rejected before anything was sent.
#[derive(Clone, Copy, PartialEq, Eq, Structural, Debug)]
pub enum ParseError {
    /// No such verb, or too few words.
    Invalid,
    /// The argument of a task command is not a task id.
    BadNumber,
}

/// The message text of a parse error.
pub open spec fn spec_parse_error_message(e: ParseError) -> Seq<char> {
    match e {
        ParseError::Invalid => "Invalid command"@,
        ParseError::BadNumber => "Argument should be an int"@,
    }
}

impl ParseError {
    /// The message text of this error.
    pub fn message(&self) -> (r: &'static str)
        ensures
            r@ == spec_parse_error_message(*self),
    {
        match self {
            ParseError::Invalid => "Invalid command",
            ParseError::BadNumber => "Argument should be an int",
        }
    }
}

/// The request a command line denotes: one of the bare verbs `status`,
/// `reload` and `restart` taken whole, or a verb with one argument --
/// a decimal task id for `start`, `stop`, `restart` and `info`, a raw
/// path for `load` and `unload` (resolving it is the caller's work).
/// Words after the argument are ignored.
pub open spec fn spec_parse_line(s: Seq<char>) -> Result<RequestView, ParseError> {
    if s == "status"@ {
        Ok(RequestView::Status)
    } else if s == "reload"@ {
        Ok(RequestView::Reload)
    } else if s == "restart"@ {
        Ok(RequestView::Restart)
    } else {
        let parts = tokens(s);
        if parts.len() < 2 {
            Err(ParseError::Invalid)
        } else if parts[0] == "start"@ || parts[0] == "stop"@ || parts[0] == "restart"@
            || parts[0] == "info"@ {
            if is_dec_usize(parts[1]) {
                let id = dec_val(dec_digits_of(parts[1])) as usize;
                if parts[0] == "start"@ {
                    Ok(RequestView::StartTask(id))
                } else if parts[0] == "stop"@ {
                    Ok(RequestView::StopTask(id))
                } else if parts[0] == "restart"@ {
                    Ok(RequestView::RestartTask(id))
                } else {
                    Ok(RequestView::InfoTask(id))
                }
            } else {
                Err(ParseError::BadNumber)
            }
        } else if parts[0] == "load"@ {
            Ok(RequestView::LoadFile(parts[1]))
        } else if parts[0] == "unload"@ {
            Ok(RequestView::UnloadFile(parts[1]))
        } else {
            Err(ParseError::Invalid)
        }
    }
}

/// Parses one client command line; see [`spec_parse_line`].
pub fn parse_line(line: &str) -> (r: Result<TaskmasterDaemonRequest, ParseError>)
    ensures
        match r {
            Ok(req) => spec_parse_line(line@) == Ok::<RequestView, ParseError>(req@),
            Err(e) => spec_parse_line(line@) == Err::<RequestView, ParseError>(e),
        },
{
    proof {
        reveal_strlit("status");
        reveal_strlit("reload");
        reveal_strlit("restart");
        reveal_strlit("start");
        reveal_strlit("stop");
        reveal_strlit("info");
        reveal_strlit("load");
        reveal_strlit("unload");
        assert("status"@.len() == 6);
        assert("reload"@.len() == 6);
        assert("restart"@.len() == 7);
        assert("start"@.len() == 5);
        assert("stop"@.len() == 4);
        assert("info"@.len() == 4);
        assert("load"@.len() == 4);
        assert("unload"@.len() == 6);
    }
    if str_eq(line, "status") {
        return Ok(TaskmasterDaemonRequest::Status);
    }
    if str_eq(line, "reload") {
        return Ok(TaskmasterDaemonRequest::Reload);
    }
    if str_eq(line, "restart") {
        return Ok(TaskmasterDaemonRequest::Restart);
    }
    let mut parts = split_ws(line);
    if parts.len() < 2 {
        return Err(ParseError::Invalid);
    }
    proof {
        assert(parts@[0]@ == tokens(line@)[0]);
        assert(parts@[1]@ == tokens(line@)[1]);
    }
    let numeric = str_eq(parts[0].as_str(), "start") || str_eq(parts[0].as_str(), "stop")
        || str_eq(parts[0].as_str(), "restart") || str_eq(parts[0].as_str(), "info");
    if numeric {
        let id = match parse_usize(parts[1].as_str()) {
            Some(id) => id,
            None => {
                return Err(ParseError::BadNumber);
            },
        };
        if str_eq(parts[0].as_str(), "start") {
            Ok(TaskmasterDaemonRequest::StartTask(id))
        } else if str_eq(parts[0].as_str(), "stop") {
            Ok(TaskmasterDaemonRequest::StopTask(id))
        } else if str_eq(parts[0].as_str(), "restart") {
            Ok(TaskmasterDaemonRequest::RestartTask(id))
        } else {
            Ok(TaskmasterDaemonRequest::InfoTask(id))
        }
    } else if str_eq(parts[0].as_str(), "load") {
        let p = parts.remove(1);
        Ok(TaskmasterDaemonRequest::LoadFile(p))
    } else if str_eq(parts[0].as_str(), "unload") {
        let p = parts.remove(1);
        Ok(TaskmasterDaemonRequest::UnloadFile(p))
    } else {
        Err(ParseError::Invalid)
    }
}

} // verus!

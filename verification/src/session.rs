//! The conversation on disk.

use vstd::prelude::*;

use crate::error::{IoError, IoErrorKind, IoFault};
use crate::message::{messages, Message};
use crate::text::{cat2, utf8_text};

verus! {

/// Why a conversation could not be loaded or saved.
#[derive(Debug, Clone, PartialEq, Eq)]
pub enum SessionError {
    /// The file is there, but holds no conversation.
    Corrupt(String),
    /// The file could not be read or written.
    Io(IoError),
}

/// A [`SessionError`] as the contracts see it.
pub enum SessionFault {
    Corrupt(Seq<char>),
    Io(IoFault),
}

impl View for SessionError {
    type V = SessionFault;

    open spec fn view(&self) -> SessionFault {
        match self {
            SessionError::Corrupt(path) => SessionFault::Corrupt(path@),
            SessionError::Io(e) => SessionFault::Io(e@),
        }
    }
}

impl SessionError {
    /// The sentence that tells the user what went wrong.
    pub fn message(&self) -> (r: String)
        ensures
            r@ == match self@ {
                SessionFault::Corrupt(path) => "session file is corrupt (invalid JSON): "@ + path,
                SessionFault::Io(e) => "session io error: "@ + e.message,
            },
    {
        match self {
            SessionError::Corrupt(path) => cat2(
                "session file is corrupt (invalid JSON): ",
                path.as_str(),
            ),
            SessionError::Io(e) => cat2("session io error: ", e.message.as_str()),
        }
    }
}

/// The conversation on disk: loading it, step by step.
pub struct Session;

/// The text of the file, or nothing where there is no file.
pub open spec fn session_text(path: Seq<char>, read: Result<Vec<u8>, IoError>) -> Result<
    Option<Seq<char>>,
    SessionFault,
> {
    match read {
        Err(e) => if e@.kind == IoErrorKind::NotFound {
            Ok(None)
        } else {
            Err(SessionFault::Io(e@))
        },
        Ok(bytes) => if vstd::utf8::valid_utf8(bytes@) {
            Ok(Some(vstd::utf8::decode_utf8(bytes@)))
        } else {
            Err(SessionFault::Corrupt(path))
        },
    }
}

impl Session {
    /// The text of the file at `path`, from what reading it gave. There is no text where there
    /// is no file.
    pub fn text(path: &str, read: Result<Vec<u8>, IoError>) -> (r: Result<
        Option<String>,
        SessionError,
    >)
        ensures
            match r {
                Ok(t) => session_text(path@, read) == Ok::<Option<Seq<char>>, SessionFault>(
                    crate::text::opt_text(t),
                ),
                Err(e) => session_text(path@, read) == Err::<Option<Seq<char>>, SessionFault>(e@),
            },
    {
        match read {
            Err(e) => match e.kind {
                IoErrorKind::NotFound => Ok(None),
                _ => Err(SessionError::Io(e)),
            },
            Ok(bytes) => match utf8_text(bytes) {
                Some(text) => Ok(Some(text)),
                None => Err(SessionError::Corrupt(path.to_owned())),
            },
        }
    }

    /// The conversation in the file at `path`: `read` is what [`Session::text`] gave, `parsed`
    /// the messages that the text holds, where it holds any. Without a file the conversation is
    /// empty; a file that holds no conversation is an error, so that it is never overwritten.
    pub fn load(
        path: &str,
        read: Result<Option<String>, SessionError>,
        parsed: Option<Vec<Message>>,
    ) -> (r: Result<Vec<Message>, SessionError>)
        ensures
            match read {
                Err(e) => r matches Err(f) && f@ == e@,
                Ok(None) => r matches Ok(v) && v@.len() == 0,
                Ok(Some(_)) => match parsed {
                    Some(given) => r matches Ok(v) && messages(v@) == messages(given@),
                    None => r matches Err(f) && f@ == SessionFault::Corrupt(path@),
                },
            },
    {
        match read {
            Err(e) => Err(e),
            Ok(None) => Ok(Vec::new()),
            Ok(Some(_)) => match parsed {
                Some(given) => Ok(given),
                None => Err(SessionError::Corrupt(path.to_owned())),
            },
        }
    }
}

/// A file is read back as the text that was written to it, whatever the text; where there is no
/// file there is none; where reading fails otherwise, and where the bytes are no text, that is
/// what comes back.
pub proof fn law_session_text(
    path: Seq<char>,
    text: Seq<char>,
    bytes: Vec<u8>,
    e: IoError,
)
    ensures
        bytes@ == vstd::utf8::encode_utf8(text) ==> session_text(path, Ok(bytes)) == Ok::<
            Option<Seq<char>>,
            SessionFault,
        >(Some(text)),
        (forall|t: Seq<char>| bytes@ != #[trigger] vstd::utf8::encode_utf8(t)) ==> session_text(
            path,
            Ok(bytes),
        ) == Err::<Option<Seq<char>>, SessionFault>(SessionFault::Corrupt(path)),
        session_text(path, Err(e)) == (if e.kind == IoErrorKind::NotFound {
            Ok::<Option<Seq<char>>, SessionFault>(None)
        } else {
            Err(SessionFault::Io(e@))
        }),
{
    vstd::utf8::encode_utf8_valid_utf8(text);
    vstd::utf8::encode_utf8_decode_utf8(text);
    if vstd::utf8::valid_utf8(bytes@) {
        vstd::utf8::decode_utf8_encode_utf8(bytes@);
    }
}

/// What [`Session::load`] gives back: the messages of the file, all of them and in their order;
/// none where there is no file; an error, and so nothing to overwrite the file with, where it holds
/// no conversation.
pub proof fn law_session_load(
    path: &str,
    read: Result<Option<String>, SessionError>,
    parsed: Option<Vec<Message>>,
    r: Result<Vec<Message>, SessionError>,
)
    requires
        call_ensures(Session::load, (path, read, parsed), r),
    ensures
        r is Ok <==> (read matches Ok(text) && (text is None || parsed is Some)),
        r matches Ok(v) ==> if read->Ok_0 is None {
            v@.len() == 0
        } else {
            v@.len() == parsed->0@.len() && forall|k: int|
                0 <= k < v@.len() ==> (#[trigger] v@[k])@ == parsed->0@[k]@
        },
        read matches Err(e) ==> r->Err_0@ == e@,
        read is Ok && r is Err ==> r->Err_0@ == SessionFault::Corrupt(path@),
{
    if r is Ok && read->Ok_0 is Some {
        let v = r->Ok_0;
        let given = parsed->0;
        assert(messages(v@).len() == v@.len());
        assert(messages(given@).len() == given@.len());
        assert forall|k: int| 0 <= k < v@.len() implies (#[trigger] v@[k])@ == given@[k]@ by {
            assert(messages(v@)[k] == v@[k]@);
            assert(messages(given@)[k] == given@[k]@);
        }
    }
}

} // verus!

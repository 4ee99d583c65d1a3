use vstd::prelude::*;
use crate::error::{error_from_message, ServerError};

verus! {

/// Commands issued by the server, directed at one or many clients.
pub enum ServerWSCommand {
    Update,
    About,
    Response,
}

/// Wire verb of a server command.
pub open spec fn server_verb(c: ServerWSCommand) -> Seq<char> {
    match c {
        ServerWSCommand::Update => "Update"@,
        ServerWSCommand::About => "About"@,
        ServerWSCommand::Response => "Response"@,
    }
}

impl ServerWSCommand {
    pub fn as_str(&self) -> (r: &'static str)
        ensures
            r@ == server_verb(*self),
    {
        match self {
            ServerWSCommand::Update => "Update",
            ServerWSCommand::About => "About",
            ServerWSCommand::Response => "Response",
        }
    }
}

/// Commands issued by a client, directed at the server; each may carry a payload.
pub enum ClientWSCommand {
    Log(Option<String>),
    Response(Option<String>),
    Discord(Option<String>),
}

/// Number of characters before the first space (the whole length when there is none).
pub open spec fn word_len(s: Seq<char>) -> nat
    decreases s.len(),
{
    if s.len() == 0 {
        0
    } else if s[0] == ' ' {
        0
    } else {
        1 + word_len(s.drop_first())
    }
}

/// The verbs that a client may send.
pub open spec fn is_client_verb(w: Seq<char>) -> bool {
    w == "Log"@ || w == "Response"@ || w == "Discord"@
}

pub open spec fn payload_view(p: Option<String>) -> Option<Seq<char>> {
    match p {
        Some(s) => Some(s@),
        None => None,
    }
}

/// What a text frame `<verb>[ <payload>]` means: the verb, and the text after the first
/// space if there is a space; nothing when the verb is not known.
pub open spec fn parsed(s: Seq<char>) -> Option<(Seq<char>, Option<Seq<char>>)> {
    let k = word_len(s) as int;
    let verb = s.subrange(0, k);
    if !is_client_verb(verb) {
        None
    } else if k == s.len() {
        Some((verb, None))
    } else {
        Some((verb, Some(s.subrange(k + 1, s.len() as int))))
    }
}

impl ClientWSCommand {
    /// The command as its wire verb and payload.
    pub open spec fn parts(&self) -> (Seq<char>, Option<Seq<char>>) {
        match self {
            ClientWSCommand::Log(p) => ("Log"@, payload_view(*p)),
            ClientWSCommand::Response(p) => ("Response"@, payload_view(*p)),
            ClientWSCommand::Discord(p) => ("Discord"@, payload_view(*p)),
        }
    }

    /// Parses a text frame. An unknown verb is an error; the frame is then to be dropped.
    pub fn new(string: &str) -> (r: Result<Self, ServerError>)
        ensures
            r is Ok <==> parsed(string@) is Some,
            r is Ok ==> parsed(string@) == Some(r->Ok_0.parts()),
    {
        let n = string.unicode_len();
        let mut i: usize = 0;
        while i < n
            invariant
                n == string@.len(),
                i <= n,
                forall|j: int| 0 <= j < i ==> string@[j] != ' ',
            ensures
                i == n || string@[i as int] == ' ',
            decreases n - i,
        {
            if string.get_char(i) == ' ' {
                break;
            }
            i = i + 1;
        }
        proof {
            lemma_word_len(string@, i as int);
        }
        let verb = string.substring_char(0, i);
        let payload = if i < n {
            Some(string.substring_char(i + 1, n).to_owned())
        } else {
            None
        };
        if str_eq(verb, "Log") {
            Ok(ClientWSCommand::Log(payload))
        } else if str_eq(verb, "Response") {
            Ok(ClientWSCommand::Response(payload))
        } else if str_eq(verb, "Discord") {
            Ok(ClientWSCommand::Discord(payload))
        } else {
            Err(ServerError(error_from_message("Invalid command.")))
        }
    }

    pub fn as_str(&self) -> (r: &'static str)
        ensures
            r@ == self.parts().0,
    {
        match self {
            ClientWSCommand::Log(_) => "Log",
            ClientWSCommand::Response(_) => "Response",
            ClientWSCommand::Discord(_) => "Discord",
        }
    }
}

proof fn lemma_word_len(s: Seq<char>, i: int)
    requires
        0 <= i <= s.len(),
        forall|j: int| 0 <= j < i ==> s[j] != ' ',
        i == s.len() || s[i] == ' ',
    ensures
        word_len(s) == i,
    decreases i,
{
    if i > 0 {
        lemma_word_len(s.drop_first(), i - 1);
    }
}

/// Character-wise equality of two strings.
pub fn str_eq(a: &str, b: &str) -> (r: bool)
    ensures
        r == (a@ == b@),
{
    let n = a.unicode_len();
    if n != b.unicode_len() {
        return false;
    }
    let mut i: usize = 0;
    while i < n
        invariant
            n == a@.len(),
            n == b@.len(),
            i <= n,
            forall|j: int| 0 <= j < i ==> a@[j] == b@[j],
        decreases n - i,
    {
        if a.get_char(i) != b.get_char(i) {
            return false;
        }
        i = i + 1;
    }
    proof {
        assert(a@ =~= b@);
    }
    true
}

} // verus!

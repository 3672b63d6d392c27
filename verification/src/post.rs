//! The representations of a message and its metadata.
//!
//! A `UserPost` carries the data extracted from a post request; a `Post` is
//! the final record stored in the history, with an assigned id and timestamp.

use vstd::prelude::*;

verus! {

/// The mathematical value of a [`UserPost`].
pub struct UserPostView {
    pub login: Seq<char>,
    pub user_agent: Seq<char>,
    pub message: Seq<char>,
}

/// The mathematical value of a [`Post`].
pub struct PostView {
    pub id: u64,
    pub time: Seq<char>,
    pub login: Seq<char>,
    pub user_agent: Seq<char>,
    pub message: Seq<char>,
}

/// The mathematical values of a sequence of posts.
pub open spec fn views_of(s: Seq<Post>) -> Seq<PostView> {
    s.map_values(|p: Post| p@)
}

/// The data extracted from a post request.
///
/// The `login` field is the account name of the author if the user is
/// authenticated; an empty login means the post is anonymous.
///
/// The `user_agent` field is the UserAgent HTTP header of the post request,
/// used as a lousy author identification mechanism for unauthenticated posts.
///
/// The `message` field contains the message content.
pub struct UserPost {
    /// The user's login (may be empty).
    pub login: String,
    /// The user's UserAgent header value (may be empty).
    pub user_agent: String,
    /// The message content (may be empty).
    pub message: String,
}

impl View for UserPost {
    type V = UserPostView;

    open spec fn view(&self) -> UserPostView {
        UserPostView { login: self.login@, user_agent: self.user_agent@, message: self.message@ }
    }
}

impl UserPost {
    /// Constructs a new `UserPost` from its three fields, stored verbatim.
    pub fn new(p_login: String, p_user_agent: String, p_message: String) -> (r: UserPost)
        ensures
            r@.login == p_login@,
            r@.user_agent == p_user_agent@,
            r@.message == p_message@,
    {
        UserPost { login: p_login, user_agent: p_user_agent, message: p_message }
    }

    /// Builds a `UserPost` from the raw pieces of a post request.
    ///
    /// The login and the message are trimmed of surrounding whitespace.
    /// The UserAgent header value, when present, is trimmed too and then
    /// cut down to at most 80 characters; when absent, a placeholder
    /// stands in for it.
    pub fn from_request(p_login: String, p_user_agent: Option<String>, p_message: String) -> (r:
        UserPost)
        ensures
            r@.login == trimmed(p_login@),
            r@.message == trimmed(p_message@),
            p_user_agent matches Some(ua) ==> r@.user_agent == take_chars(trimmed(ua@), 80),
            p_user_agent is None ==> r@.user_agent == "Anonymous Coward"@,
    {
        let user_agent = match p_user_agent {
            Some(ua) => {
                let t = trim_copy(ua.as_str());
                if t.as_str().unicode_len() > 80 {
                    t.as_str().substring_char(0, 80).to_owned()
                } else {
                    t
                }
            },
            None => "Anonymous Coward".to_owned(),
        };
        UserPost {
            login: trim_copy(p_login.as_str()),
            user_agent,
            message: trim_copy(p_message.as_str()),
        }
    }
}

/// Whether `c` is ASCII whitespace: a space or one of the control
/// characters tab through carriage return.
pub open spec fn is_space(c: char) -> bool {
    c as u32 == 32 || (9 <= c as u32 <= 13)
}

/// `s` without its leading ASCII whitespace.
pub open spec fn trim_front(s: Seq<char>) -> Seq<char>
    decreases s.len(),
{
    if s.len() > 0 && is_space(s.first()) {
        trim_front(s.drop_first())
    } else {
        s
    }
}

/// `s` without its trailing ASCII whitespace.
pub open spec fn trim_back(s: Seq<char>) -> Seq<char>
    decreases s.len(),
{
    if s.len() > 0 && is_space(s.last()) {
        trim_back(s.drop_last())
    } else {
        s
    }
}

/// `s` without its surrounding ASCII whitespace.
pub open spec fn trimmed(s: Seq<char>) -> Seq<char> {
    trim_back(trim_front(s))
}

/// `s` cut down to its first `n` characters, or all of `s` if it is
/// shorter.
pub open spec fn take_chars(s: Seq<char>, n: int) -> Seq<char> {
    if s.len() <= n {
        s
    } else {
        s.take(n)
    }
}

/// Copies `s` without its surrounding ASCII whitespace.
fn trim_copy(s: &str) -> (r: String)
    ensures
        r@ == trimmed(s@),
{
    let n = s.unicode_len();
    let mut i: usize = 0;
    proof {
        assert(s@.skip(0) =~= s@);
    }
    loop
        invariant
            n == s@.len(),
            i <= n,
            trim_front(s@) == trim_front(s@.skip(i as int)),
        ensures
            i <= n,
            trim_front(s@) == s@.skip(i as int),
        decreases n - i,
    {
        if i >= n {
            proof {
                assert(s@.skip(i as int) =~= Seq::<char>::empty());
            }
            break;
        }
        let c = s.get_char(i);
        if !(c as u32 == 32 || (9 <= c as u32 && c as u32 <= 13)) {
            proof {
                assert(s@.skip(i as int).first() == s@[i as int]);
            }
            break;
        }
        proof {
            assert(s@.skip(i as int).first() == s@[i as int]);
            assert(s@.skip(i as int).drop_first() =~= s@.skip(i + 1));
        }
        i = i + 1;
    }
    let mut j: usize = n;
    loop
        invariant
            n == s@.len(),
            i <= j <= n,
            trimmed(s@) == trim_back(s@.subrange(i as int, j as int)),
        ensures
            i <= j <= n,
            trimmed(s@) == s@.subrange(i as int, j as int),
        decreases j,
    {
        if j == i {
            proof {
                assert(s@.subrange(i as int, j as int) =~= Seq::<char>::empty());
            }
            break;
        }
        let c = s.get_char(j - 1);
        if !(c as u32 == 32 || (9 <= c as u32 && c as u32 <= 13)) {
            proof {
                assert(s@.subrange(i as int, j as int).last() == s@[j - 1]);
            }
            break;
        }
        proof {
            assert(s@.subrange(i as int, j as int).last() == s@[j - 1]);
            assert(s@.subrange(i as int, j as int).drop_last() =~= s@.subrange(i as int, j - 1));
        }
        j = j - 1;
    }
    s.substring_char(i, j).to_owned()
}

/// A post stored in the history.
///
/// A `Post` adds two fields to a `UserPost`: `id`, a unique identifier
/// assigned by the history, and `time`, the datetime of insertion in the
/// format `YYYYMMDDHHMMSS` (not necessarily unique).
///
/// All fields are immutable: a `Post` is never changed once constructed.
pub struct Post {
    /// The post's unique identifier.
    id: u64,
    /// The datetime when the post was added to the history.
    time: String,
    /// The user's login (may be empty).
    login: String,
    /// The user's UserAgent header value.
    user_agent: String,
    /// The message content (may be empty).
    message: String,
}

impl View for Post {
    type V = PostView;

    closed spec fn view(&self) -> PostView {
        PostView {
            id: self.id,
            time: self.time@,
            login: self.login@,
            user_agent: self.user_agent@,
            message: self.message@,
        }
    }
}

impl Clone for Post {
    fn clone(&self) -> (r: Self)
        ensures
            r@ == self@,
    {
        Post {
            id: self.id,
            time: self.time.clone(),
            login: self.login.clone(),
            user_agent: self.user_agent.clone(),
            message: self.message.clone(),
        }
    }
}

impl Post {
    /// Constructs a new `Post` from an id, a datetime and a `UserPost`,
    /// copying the submission's fields verbatim.
    pub fn new(p_id: u64, p_datetime: String, p_parser: UserPost) -> (r: Post)
        ensures
            r@ == (PostView {
                id: p_id,
                time: p_datetime@,
                login: p_parser@.login,
                user_agent: p_parser@.user_agent,
                message: p_parser@.message,
            }),
    {
        Post {
            id: p_id,
            time: p_datetime,
            login: p_parser.login,
            user_agent: p_parser.user_agent,
            message: p_parser.message,
        }
    }

    /// Gives the post's identifier.
    pub fn id(&self) -> (r: u64)
        ensures
            r == self@.id,
    {
        self.id
    }

    /// Gives the post's creation datetime.
    pub fn time(&self) -> (r: &String)
        ensures
            r@ == self@.time,
    {
        &self.time
    }

    /// Gives the post's author login; an empty string means the post was
    /// sent by an anonymous user.
    pub fn login(&self) -> (r: &String)
        ensures
            r@ == self@.login,
    {
        &self.login
    }

    /// Gives the post's author UserAgent.
    pub fn user_agent(&self) -> (r: &String)
        ensures
            r@ == self@.user_agent,
    {
        &self.user_agent
    }

    /// Gives the post's message.
    pub fn message(&self) -> (r: &String)
        ensures
            r@ == self@.message,
    {
        &self.message
    }

    /// Tells whether the post is from an authenticated user, that is,
    /// whether its login is non-empty.
    pub fn is_authenticated(&self) -> (r: bool)
        ensures
            r == (self@.login.len() != 0),
    {
        !self.login.as_str().is_empty()
    }
}

} // verus!

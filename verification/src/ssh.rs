//! The SSH-backed source and sink: connection-string parsing, the shell
//! commands the engine issues on the remote host, and the interpretation of
//! their output.
//!
//! The transport itself — TCP, handshake, SFTP — lives outside the library;
//! what is verified here is everything the engine decides: how a
//! `user@host:path` string is taken apart, what command text is sent for a
//! remote digest, symlink test or link creation, and what a command's output
//! means.

use vstd::prelude::*;
use crate::paths::{spec_count_char, count_char, split_once_char, spec_trim, trim_str, str_eq, lemma_count_zero};

verus! {

/// A remote endpoint: the user and host an SSH session connects to.
pub struct SSHSessionHelper {
    user: String,
    host: String,
}

impl SSHSessionHelper {
    /// The user the session authenticates as.
    pub closed spec fn user_spec(&self) -> Seq<char> {
        self.user@
    }

    /// The host the session connects to.
    pub closed spec fn host_spec(&self) -> Seq<char> {
        self.host@
    }

    /// A helper for the given user and host.
    pub fn new(user: String, host: String) -> (h: SSHSessionHelper)
        ensures
            h.user_spec() == user@,
            h.host_spec() == host@,
    {
        SSHSessionHelper { user, host }
    }

    /// The user this helper authenticates as.
    pub fn user(&self) -> (r: &String)
        ensures
            r@ == self.user_spec(),
    {
        &self.user
    }

    /// The host this helper connects to.
    pub fn host(&self) -> (r: &String)
        ensures
            r@ == self.host_spec(),
    {
        &self.host
    }
}

/// Whether a connection string takes the `user@host:path` shape: exactly
/// one `@`, and exactly one `:` after it.
pub open spec fn spec_conn_ok(u: Seq<char>) -> bool {
    exists|a: Seq<char>, b: Seq<char>, c: Seq<char>|
        {
            &&& u == a + seq!['@'] + b + seq![':'] + c
            &&& spec_count_char(a, '@') == 0
            &&& spec_count_char(b, '@') == 0
            &&& spec_count_char(c, '@') == 0
            &&& spec_count_char(b, ':') == 0
            &&& spec_count_char(c, ':') == 0
        }
}

/// The parsed parts of a connection string.
pub struct SshEndpoint {
    pub user: String,
    pub host: String,
    pub root: String,
}

/// The error text for a connection string that does not parse.
pub open spec fn spec_conn_error(u: Seq<char>) -> Seq<char> {
    "Invalid SSH connection string: "@ + u
}

/// The rejection message for a connection string.
fn conn_error(u: &str) -> (m: String)
    ensures
        m@ == spec_conn_error(u@),
{
    proof {
        reveal_strlit("Invalid SSH connection string: ");
    }
    let mut m = String::new();
    m.append("Invalid SSH connection string: ");
    m.append(u);
    proof {
        assert(Seq::<char>::empty() + "Invalid SSH connection string: "@ + u@ =~= spec_conn_error(
            u@,
        ));
    }
    m
}

/// Counting distributes over concatenation.
proof fn lemma_count_concat(x: Seq<char>, y: Seq<char>, c: char)
    ensures
        spec_count_char(x + y, c) == spec_count_char(x, c) + spec_count_char(y, c),
    decreases y.len(),
{
    if y.len() == 0 {
        assert(x + y =~= x);
    } else {
        lemma_count_concat(x, y.drop_last(), c);
        assert((x + y).drop_last() =~= x + y.drop_last());
    }
}

/// A string splits at its first occurrence of a character in only one way.
proof fn lemma_split_unique(x1: Seq<char>, y1: Seq<char>, x2: Seq<char>, y2: Seq<char>, d: char)
    requires
        x1 + seq![d] + y1 == x2 + seq![d] + y2,
        spec_count_char(x1, d) == 0,
        spec_count_char(x2, d) == 0,
    ensures
        x1 == x2,
        y1 == y2,
{
    lemma_count_zero(x1, d);
    lemma_count_zero(x2, d);
    let u = x1 + seq![d] + y1;
    if x1.len() < x2.len() {
        assert(u[x1.len() as int] == d);
        assert((x2 + seq![d] + y2)[x1.len() as int] == x2[x1.len() as int]);
    }
    if x2.len() < x1.len() {
        assert(u[x2.len() as int] == x1[x2.len() as int]);
        assert((x2 + seq![d] + y2)[x2.len() as int] == d);
    }
    assert(x1.len() == x2.len());
    assert forall|i: int| 0 <= i < x1.len() implies x1[i] == x2[i] by {
        assert((x1 + seq![d] + y1)[i] == x1[i]);
        assert((x2 + seq![d] + y2)[i] == x2[i]);
    }
    assert(x1 =~= x2);
    assert((x1 + seq![d] + y1).len() == x1.len() + 1 + y1.len());
    assert((x2 + seq![d] + y2).len() == x2.len() + 1 + y2.len());
    assert(y1.len() == y2.len());
    assert forall|i: int| 0 <= i < y1.len() implies y1[i] == y2[i] by {
        assert((x1 + seq![d] + y1)[x1.len() + 1 + i] == y1[i]);
        assert((x2 + seq![d] + y2)[x2.len() + 1 + i] == y2[i]);
    }
    assert(y1 =~= y2);
}

/// A valid connection string holds an `@`.
proof fn lemma_conn_needs_at(u: Seq<char>)
    requires
        spec_count_char(u, '@') == 0,
    ensures
        !spec_conn_ok(u),
{
    if spec_conn_ok(u) {
        let (a, b, c) = choose|a: Seq<char>, b: Seq<char>, c: Seq<char>|
            {
                &&& u == a + seq!['@'] + b + seq![':'] + c
                &&& spec_count_char(a, '@') == 0
                &&& spec_count_char(b, '@') == 0
                &&& spec_count_char(c, '@') == 0
                &&& spec_count_char(b, ':') == 0
                &&& spec_count_char(c, ':') == 0
            };
        lemma_count_concat(a + seq!['@'] + b + seq![':'], c, '@');
        lemma_count_concat(a + seq!['@'] + b, seq![':'], '@');
        lemma_count_concat(a + seq!['@'], b, '@');
        lemma_count_concat(a, seq!['@'], '@');
    }
}

/// Once the unique `@` is found, what stands before and after it is pinned:
/// a valid string's remainder holds exactly one `:` and no further `@`.
proof fn lemma_conn_rest(u: Seq<char>, user: Seq<char>, rest: Seq<char>)
    requires
        u == user + seq!['@'] + rest,
        spec_count_char(user, '@') == 0,
        spec_conn_ok(u),
    ensures
        exists|b: Seq<char>, c: Seq<char>|
            {
                &&& rest == b + seq![':'] + c
                &&& spec_count_char(b, ':') == 0
                &&& spec_count_char(c, ':') == 0
                &&& spec_count_char(rest, '@') == 0
            },
{
    let (a, b, c) = choose|a: Seq<char>, b: Seq<char>, c: Seq<char>|
        {
            &&& u == a + seq!['@'] + b + seq![':'] + c
            &&& spec_count_char(a, '@') == 0
            &&& spec_count_char(b, '@') == 0
            &&& spec_count_char(c, '@') == 0
            &&& spec_count_char(b, ':') == 0
            &&& spec_count_char(c, ':') == 0
        };
    assert(a + seq!['@'] + b + seq![':'] + c =~= a + seq!['@'] + (b + seq![':'] + c));
    lemma_split_unique(user, rest, a, b + seq![':'] + c, '@');
    lemma_count_concat(b + seq![':'], c, '@');
    lemma_count_concat(b, seq![':'], '@');
    lemma_count_zero(seq![':'], '@');
    assert(spec_count_char(seq![':'], '@') == 0);
    assert(rest == b + seq![':'] + c && spec_count_char(b, ':') == 0 && spec_count_char(c, ':')
        == 0 && spec_count_char(rest, '@') == 0);
}

/// Take a `user@host:path` connection string apart. It parses exactly when
/// it holds one `@` and one `:` after it; the three parts compose back to
/// the input.
pub fn parse_connection_string(u: &str) -> (r: Result<SshEndpoint, String>)
    ensures
        match r {
            Ok(e) => {
                &&& u@ == e.user@ + seq!['@'] + e.host@ + seq![':'] + e.root@
                &&& spec_count_char(e.user@, '@') == 0
                &&& spec_count_char(e.host@, '@') == 0
                &&& spec_count_char(e.root@, '@') == 0
                &&& spec_count_char(e.host@, ':') == 0
                &&& spec_count_char(e.root@, ':') == 0
                &&& spec_conn_ok(u@)
            },
            Err(m) => !spec_conn_ok(u@) && m@ == spec_conn_error(u@),
        },
{
    match split_once_char(u, '@') {
        None => {
            proof {
                lemma_conn_needs_at(u@);
            }
            Err(conn_error(u))
        },
        Some((user, rest)) => {
            if count_char(rest.as_str(), '@') != 0 {
                proof {
                    if spec_conn_ok(u@) {
                        lemma_conn_rest(u@, user@, rest@);
                    }
                }
                return Err(conn_error(u));
            }
            match split_once_char(rest.as_str(), ':') {
                None => {
                    proof {
                        if spec_conn_ok(u@) {
                            lemma_conn_rest(u@, user@, rest@);
                            let (b, c) = choose|b: Seq<char>, c: Seq<char>|
                                {
                                    &&& rest@ == b + seq![':'] + c
                                    &&& spec_count_char(b, ':') == 0
                                    &&& spec_count_char(c, ':') == 0
                                    &&& spec_count_char(rest@, '@') == 0
                                };
                            lemma_count_concat(b + seq![':'], c, ':');
                            lemma_count_concat(b, seq![':'], ':');
                        }
                    }
                    Err(conn_error(u))
                },
                Some((host, root)) => {
                    if count_char(root.as_str(), ':') != 0 {
                        proof {
                            if spec_conn_ok(u@) {
                                lemma_conn_rest(u@, user@, rest@);
                                let (b, c) = choose|b: Seq<char>, c: Seq<char>|
                                    {
                                        &&& rest@ == b + seq![':'] + c
                                        &&& spec_count_char(b, ':') == 0
                                        &&& spec_count_char(c, ':') == 0
                                        &&& spec_count_char(rest@, '@') == 0
                                    };
                                lemma_split_unique(host@, root@, b, c, ':');
                            }
                        }
                        return Err(conn_error(u));
                    }
                    proof {
                        let b = host@;
                        let c = root@;
                        lemma_count_concat(b + seq![':'], c, '@');
                        lemma_count_concat(b, seq![':'], '@');
                        lemma_count_zero(seq![':'], '@');
                        assert(spec_count_char(rest@, '@') == 0);
                        assert(u@ =~= user@ + seq!['@'] + host@ + seq![':'] + root@);
                        assert(spec_conn_ok(u@)) by {
                            assert({
                                &&& u@ == user@ + seq!['@'] + host@ + seq![':'] + root@
                                &&& spec_count_char(user@, '@') == 0
                                &&& spec_count_char(host@, '@') == 0
                                &&& spec_count_char(root@, '@') == 0
                                &&& spec_count_char(host@, ':') == 0
                                &&& spec_count_char(root@, ':') == 0
                            });
                        }
                    }
                    Ok(SshEndpoint { user, host, root })
                },
            }
        },
    }
}

/// An SSH-backed read side: the remote root and the session endpoint.
pub struct SSHSource {
    root: String,
    session_helper: SSHSessionHelper,
}

impl SSHSource {
    /// The root path on the remote host.
    pub closed spec fn root_spec(&self) -> Seq<char> {
        self.root@
    }

    /// The session endpoint.
    pub closed spec fn user_spec(&self) -> Seq<char> {
        self.session_helper.user_spec()
    }

    pub closed spec fn host_spec(&self) -> Seq<char> {
        self.session_helper.host_spec()
    }

    /// Parse an SSH source from a `user@host:path` connection string.
    pub fn new(connection_string: &str) -> (r: Result<SSHSource, String>)
        ensures
            match r {
                Ok(s) => connection_string@ == s.user_spec() + seq!['@'] + s.host_spec()
                    + seq![':'] + s.root_spec() && spec_conn_ok(connection_string@),
                Err(m) => !spec_conn_ok(connection_string@) && m@ == spec_conn_error(
                    connection_string@,
                ),
            },
    {
        match parse_connection_string(connection_string) {
            Ok(e) => {
                let session_helper = SSHSessionHelper::new(e.user, e.host);
                Ok(SSHSource { root: e.root, session_helper })
            },
            Err(m) => Err(m),
        }
    }

    /// The root path on the remote host.
    pub fn root(&self) -> (r: &String)
        ensures
            r@ == self.root_spec(),
    {
        &self.root
    }
}

/// An SSH-backed write side: the remote root and the session endpoint.
pub struct SSHSink {
    user: String,
    host: String,
    root: String,
    session_helper: SSHSessionHelper,
}

impl SSHSink {
    pub closed spec fn root_spec(&self) -> Seq<char> {
        self.root@
    }

    pub closed spec fn user_spec(&self) -> Seq<char> {
        self.user@
    }

    pub closed spec fn host_spec(&self) -> Seq<char> {
        self.host@
    }

    /// Parse an SSH sink from a `user@host:path` connection string.
    pub fn new(connection_string: &str) -> (r: Result<SSHSink, String>)
        ensures
            match r {
                Ok(s) => connection_string@ == s.user_spec() + seq!['@'] + s.host_spec()
                    + seq![':'] + s.root_spec() && spec_conn_ok(connection_string@),
                Err(m) => !spec_conn_ok(connection_string@) && m@ == spec_conn_error(
                    connection_string@,
                ),
            },
    {
        match parse_connection_string(connection_string) {
            Ok(e) => {
                let session_helper = SSHSessionHelper::new(e.user.clone(), e.host.clone());
                Ok(SSHSink { user: e.user, host: e.host, root: e.root, session_helper })
            },
            Err(m) => Err(m),
        }
    }

    /// The `user@host` pair this sink connects to.
    pub fn connection_string(&self) -> (r: String)
        ensures
            r@ == self.user_spec() + seq!['@'] + self.host_spec(),
    {
        let mut r = self.user.clone();
        r.append("@");
        r.append(self.host.as_str());
        proof {
            reveal_strlit("@");
            assert(self.user@ + "@"@ + self.host@ =~= self.user_spec() + seq!['@']
                + self.host_spec());
        }
        r
    }

    /// The root path on the remote host.
    pub fn root(&self) -> (r: &String)
        ensures
            r@ == self.root_spec(),
    {
        &self.root
    }
}

/// The shell command that computes a file's Blake3 digest on the remote
/// host, printing `NO_B3SUM` where the tool is absent.
pub open spec fn spec_b3sum_command(path: Seq<char>) -> Seq<char> {
    "if command -v b3sum >/dev/null 2>&1; then b3sum '"@ + path
        + "' | cut -d' ' -f1; else echo 'NO_B3SUM'; fi"@
}

/// Build the remote-digest command for one path.
pub fn b3sum_command(path: &str) -> (r: String)
    ensures
        r@ == spec_b3sum_command(path@),
{
    let mut r = String::new();
    r.append("if command -v b3sum >/dev/null 2>&1; then b3sum '");
    r.append(path);
    r.append("' | cut -d' ' -f1; else echo 'NO_B3SUM'; fi");
    proof {
        assert(Seq::<char>::empty() + "if command -v b3sum >/dev/null 2>&1; then b3sum '"@ + path@
            + "' | cut -d' ' -f1; else echo 'NO_B3SUM'; fi"@ =~= spec_b3sum_command(path@));
    }
    r
}

/// What the remote-digest command's output means: nothing when the tool was
/// absent or the output empty (the caller then falls back to reading the
/// file and hashing locally), else the trimmed digest.
pub open spec fn spec_parse_hash_output(out: Seq<char>) -> Option<Seq<char>> {
    let t = spec_trim(out);
    if t == "NO_B3SUM"@ || t.len() == 0 {
        None
    } else {
        Some(t)
    }
}

/// Interpret the remote-digest command's output.
pub fn parse_hash_output(out: &str) -> (r: Option<String>)
    ensures
        match r {
            Some(h) => spec_parse_hash_output(out@) == Some(h@),
            None => spec_parse_hash_output(out@) is None,
        },
{
    let t = trim_str(out);
    proof {
        reveal_strlit("NO_B3SUM");
    }
    if str_eq(t.as_str(), "NO_B3SUM") || t.as_str().unicode_len() == 0 {
        None
    } else {
        Some(t)
    }
}

/// The shell command that tests whether a remote path is a symlink.
pub open spec fn spec_symlink_test_command(path: Seq<char>) -> Seq<char> {
    "test -L '"@ + path + "' && echo 'true' || echo 'false'"@
}

/// Build the symlink-test command for one path.
pub fn symlink_test_command(path: &str) -> (r: String)
    ensures
        r@ == spec_symlink_test_command(path@),
{
    let mut r = String::new();
    r.append("test -L '");
    r.append(path);
    r.append("' && echo 'true' || echo 'false'");
    proof {
        assert(Seq::<char>::empty() + "test -L '"@ + path@ + "' && echo 'true' || echo 'false'"@
            =~= spec_symlink_test_command(path@));
    }
    r
}

/// What the symlink-test command's output means: a symlink exactly when the
/// trimmed output reads `true`.
pub fn parse_symlink_output(out: &str) -> (r: bool)
    ensures
        r == (spec_trim(out@) == "true"@),
{
    let t = trim_str(out);
    proof {
        reveal_strlit("true");
    }
    str_eq(t.as_str(), "true")
}

/// The shell command that reads a remote symlink's target.
pub open spec fn spec_readlink_command(path: Seq<char>) -> Seq<char> {
    "readlink '"@ + path + "'"@
}

/// Build the read-link command for one path.
pub fn readlink_command(path: &str) -> (r: String)
    ensures
        r@ == spec_readlink_command(path@),
{
    let mut r = String::new();
    r.append("readlink '");
    r.append(path);
    r.append("'");
    proof {
        assert(Seq::<char>::empty() + "readlink '"@ + path@ + "'"@ =~= spec_readlink_command(
            path@,
        ));
    }
    r
}

/// The shell command that creates a remote symlink to `target` at `link`.
pub open spec fn spec_symlink_create_command(target: Seq<char>, link: Seq<char>) -> Seq<char> {
    "ln -s '"@ + target + "' '"@ + link + "'"@
}

/// Build the symlink-creation command.
pub fn symlink_create_command(target: &str, link: &str) -> (r: String)
    ensures
        r@ == spec_symlink_create_command(target@, link@),
{
    let mut r = String::new();
    r.append("ln -s '");
    r.append(target);
    r.append("' '");
    r.append(link);
    r.append("'");
    proof {
        assert(Seq::<char>::empty() + "ln -s '"@ + target@ + "' '"@ + link@ + "'"@
            =~= spec_symlink_create_command(target@, link@));
    }
    r
}

} // verus!

//! Rules of the root-owned helper that runs approved automation commands:
//! what names and commands it accepts, the shell text and sudo policy it is
//! installed with, and how an installation is judged healthy.
use vstd::prelude::*;
use vstd::string::StringSliceAdditionalSpecFns;
use crate::digest::{sha256, sha256_hex};
use crate::text::{
    chars_eq, chars_of, hex_bytes, is_alphanumeric, is_ascii_alphanumeric, is_ascii_hexdigit,
    is_blank, is_hexdigit, push_chars, push_decimal, push_str, string_of, to_lower, ascii_lower,
    decimal, trim, trim_str,
};

verus! {

pub const HELPER_PATH: &'static str =
    "/Library/PrivilegedHelperTools/com.jonahclarsen.grindlewald.privileged";

pub const JOBS_DIRECTORY: &'static str = "/Library/Application Support/Grindlewald/PrivilegedJobs";

pub const SUDOERS_PATH: &'static str = "/private/etc/sudoers.d/grindlewald";

pub const MAX_MANIFEST_BYTES: u64 = 131072;

/// Executable search path of approved commands.
pub const SAFE_PATH: &'static str = "/opt/homebrew/bin:/usr/local/bin:/usr/bin:/bin:/usr/sbin:/sbin";

/// Health of the installed helper, as shown in Settings and the menu bar.
#[derive(Debug, Clone)]
pub struct ServiceStatus {
    pub installed: bool,
    pub healthy: bool,
    pub current: bool,
    pub message: String,
}

/// Account names that can be written into the sudo policy: 1 to 64 ASCII
/// letters, digits, `.`, `_` or `-`.
pub open spec fn valid_username(u: Seq<char>) -> bool {
    &&& 1 <= u.len() <= 64
    &&& forall|i: int|
        0 <= i < u.len() ==> is_ascii_alphanumeric(#[trigger] u[i]) || u[i] == '.' || u[i] == '_'
            || u[i] == '-'
}

/// Job identifiers: 1 to 64 ASCII letters, digits or hyphens.
pub open spec fn valid_job_id(id: Seq<char>) -> bool {
    &&& 1 <= id.len() <= 64
    &&& forall|i: int| 0 <= i < id.len() ==> is_ascii_alphanumeric(#[trigger] id[i]) || id[i] == '-'
}

pub fn validate_username(username: &str) -> (r: Result<(), String>)
    ensures
        match r {
            Ok(()) => valid_username(username@),
            Err(m) => !valid_username(username@) && m@
                == "current account name cannot be represented safely in sudo policy"@,
        },
{
    let v = chars_of(username);
    let mut ok = 1 <= v.len() && v.len() <= 64;
    let mut i: usize = 0;
    while ok && i < v.len()
        invariant
            i <= v.len(),
            v@ == username@,
            ok ==> 1 <= v.len() <= 64,
            ok ==> forall|k: int|
                0 <= k < i ==> is_ascii_alphanumeric(#[trigger] v@[k]) || v@[k] == '.' || v@[k]
                    == '_' || v@[k] == '-',
            !ok ==> !valid_username(username@),
        decreases v.len() - i,
    {
        let c = v[i];
        if !(is_alphanumeric(c) || c == '.' || c == '_' || c == '-') {
            assert(!(is_ascii_alphanumeric(username@[i as int]) || username@[i as int] == '.'
                || username@[i as int] == '_' || username@[i as int] == '-'));
            ok = false;
        }
        i += 1;
    }
    if ok {
        Ok(())
    } else {
        Err("current account name cannot be represented safely in sudo policy".to_string())
    }
}

pub fn validate_job_id(id: &str) -> (r: Result<(), String>)
    ensures
        match r {
            Ok(()) => valid_job_id(id@),
            Err(m) => !valid_job_id(id@) && m@ == "administrator job identifier is invalid"@,
        },
{
    let v = chars_of(id);
    let mut ok = 1 <= v.len() && v.len() <= 64;
    let mut i: usize = 0;
    while ok && i < v.len()
        invariant
            i <= v.len(),
            v@ == id@,
            ok ==> 1 <= v.len() <= 64,
            ok ==> forall|k: int| 0 <= k < i ==> is_ascii_alphanumeric(#[trigger] v@[k]) || v@[k] == '-',
            !ok ==> !valid_job_id(id@),
        decreases v.len() - i,
    {
        let c = v[i];
        if !(is_alphanumeric(c) || c == '-') {
            assert(!(is_ascii_alphanumeric(id@[i as int]) || id@[i as int] == '-'));
            ok = false;
        }
        i += 1;
    }
    if ok {
        Ok(())
    } else {
        Err("administrator job identifier is invalid".to_string())
    }
}

/// Accepted job identifiers cannot leave the jobs directory: they hold no
/// path separator and no dot.
pub proof fn lemma_job_id_has_no_path_syntax(id: Seq<char>)
    requires
        valid_job_id(id),
    ensures
        !id.contains('/'),
        !id.contains('.'),
        !id.contains(' '),
        !id.contains(';'),
{
    if id.contains('/') {
        let i = choose|i: int| 0 <= i < id.len() && id[i] == '/';
        assert(is_ascii_alphanumeric(id[i]) || id[i] == '-');
    }
    if id.contains('.') {
        let i = choose|i: int| 0 <= i < id.len() && id[i] == '.';
        assert(is_ascii_alphanumeric(id[i]) || id[i] == '-');
    }
    if id.contains(' ') {
        let i = choose|i: int| 0 <= i < id.len() && id[i] == ' ';
        assert(is_ascii_alphanumeric(id[i]) || id[i] == '-');
    }
    if id.contains(';') {
        let i = choose|i: int| 0 <= i < id.len() && id[i] == ';';
        assert(is_ascii_alphanumeric(id[i]) || id[i] == '-');
    }
}

pub open spec fn job_error(id: Seq<char>, command_chars: Seq<char>, command_bytes: Seq<u8>) -> Option<
    Seq<char>,
> {
    if !valid_job_id(id) {
        Some("administrator job identifier is invalid"@)
    } else if trim(command_chars).len() == 0 {
        Some("administrator command cannot be empty"@)
    } else if command_bytes.len() > 65536 || command_bytes.contains(0u8) {
        Some("administrator command is invalid or too large"@)
    } else {
        None
    }
}

/// Checks an approval: a valid identifier and a non-blank command of at
/// most 64 KiB (UTF-8 bytes) without NUL bytes.
pub fn validate_job(id: &str, command: &str) -> (r: Result<(), String>)
    ensures
        match r {
            Ok(()) => job_error(id@, command@, command.spec_bytes()) is None,
            Err(m) => job_error(id@, command@, command.spec_bytes()) == Some(m@),
        },
{
    validate_job_id(id)?;
    if is_blank(command) {
        return Err("administrator command cannot be empty".to_string());
    }
    let bytes = command.as_bytes();
    assert(bytes@ == command.spec_bytes());
    if bytes.len() > 65536 {
        return Err("administrator command is invalid or too large".to_string());
    }
    let mut i: usize = 0;
    while i < bytes.len()
        invariant
            i <= bytes@.len() <= 65536,
            bytes@ == command.spec_bytes(),
            valid_job_id(id@),
            trim(command@).len() != 0,
            forall|k: int| 0 <= k < i ==> bytes@[k] != 0u8,
        decreases bytes@.len() - i,
    {
        if bytes[i] == 0 {
            assert(bytes@.contains(0u8));
            return Err("administrator command is invalid or too large".to_string());
        }
        i += 1;
    }
    Ok(())
}

/// Where an approved job is stored.
pub open spec fn job_file(id: Seq<char>) -> Seq<char> {
    JOBS_DIRECTORY@ + seq!['/'] + id + ".json"@
}

pub fn job_path(id: &str) -> (r: Result<String, String>)
    ensures
        match r {
            Ok(p) => valid_job_id(id@) && p@ == job_file(id@),
            Err(m) => !valid_job_id(id@) && m@ == "administrator job identifier is invalid"@,
        },
{
    validate_job_id(id)?;
    let mut v = chars_of(JOBS_DIRECTORY);
    v.push('/');
    push_str(&mut v, id);
    push_str(&mut v, ".json");
    assert(v@ =~= job_file(id@));
    Ok(string_of(&v))
}

/// The text between the quotes of `shell_quote`: each `'` becomes `'\''`.
pub open spec fn quote_body(s: Seq<char>) -> Seq<char>
    decreases s.len(),
{
    if s.len() == 0 {
        seq![]
    } else if s[0] == '\'' {
        seq!['\'', '\\', '\'', '\''] + quote_body(s.drop_first())
    } else {
        seq![s[0]] + quote_body(s.drop_first())
    }
}

/// A POSIX-shell single-quoted word.
pub open spec fn shell_quoted(s: Seq<char>) -> Seq<char> {
    seq!['\''] + quote_body(s) + seq!['\'']
}

/// Characters that end or change a shell word when unquoted.
pub open spec fn shell_special(c: char) -> bool {
    c == ' ' || c == '\t' || c == '\n' || c == '"' || c == '$' || c == '`' || c == ';' || c == '&'
        || c == '|' || c == '<' || c == '>' || c == '(' || c == ')' || c == '*' || c == '?'
        || c == '[' || c == '#' || c == '~' || c == '{' || c == '}'
}

/// How a POSIX shell reads one word made of literal characters, `'...'`
/// quotations and backslash escapes; `None` where the word would not be
/// read as one literal word.
pub open spec fn shell_read(w: Seq<char>, in_quote: bool) -> Option<Seq<char>>
    decreases w.len(),
{
    if w.len() == 0 {
        if in_quote {
            None
        } else {
            Some(seq![])
        }
    } else if in_quote {
        if w[0] == '\'' {
            shell_read(w.drop_first(), false)
        } else {
            match shell_read(w.drop_first(), true) {
                Some(rest) => Some(seq![w[0]] + rest),
                None => None,
            }
        }
    } else if w[0] == '\'' {
        shell_read(w.drop_first(), true)
    } else if w[0] == '\\' {
        if w.len() < 2 {
            None
        } else {
            match shell_read(w.drop_first().drop_first(), false) {
                Some(rest) => Some(seq![w[1]] + rest),
                None => None,
            }
        }
    } else if shell_special(w[0]) {
        None
    } else {
        match shell_read(w.drop_first(), false) {
            Some(rest) => Some(seq![w[0]] + rest),
            None => None,
        }
    }
}

proof fn lemma_quote_body_reads(s: Seq<char>)
    ensures
        shell_read(quote_body(s) + seq!['\''], true) == Some(s),
    decreases s.len(),
{
    if s.len() == 0 {
        let w = quote_body(s) + seq!['\''];
        assert(w =~= seq!['\'']);
        assert(w.drop_first() =~= Seq::<char>::empty());
        assert(shell_read(w, true) == shell_read(w.drop_first(), false));
        assert(s =~= Seq::<char>::empty());
    } else {
        let rest = s.drop_first();
        let tail = quote_body(rest) + seq!['\''];
        lemma_quote_body_reads(rest);
        assert(shell_read(tail, true) == Some(rest));
        let w = quote_body(s) + seq!['\''];
        if s[0] == '\'' {
            assert(w =~= seq!['\'', '\\', '\'', '\''] + tail);
            let w1 = w.drop_first();
            assert(w1 =~= seq!['\\', '\'', '\''] + tail);
            let w3 = w1.drop_first().drop_first();
            assert(w3 =~= seq!['\''] + tail);
            assert(w3.drop_first() =~= tail);
            assert(shell_read(w3, false) == shell_read(tail, true));
            assert(shell_read(w1, false) == Some(seq![w1[1]] + rest));
            assert(shell_read(w, true) == shell_read(w1, false));
        } else {
            assert(w =~= seq![s[0]] + tail);
            assert(w.drop_first() =~= tail);
            assert(shell_read(w, true) == Some(seq![s[0]] + rest));
        }
        assert(s =~= seq![s[0]] + rest);
    }
}

/// A quoted argument reads back, in the shell, as exactly the given text.
pub proof fn lemma_shell_quote_reads_back(s: Seq<char>)
    ensures
        shell_read(shell_quoted(s), false) == Some(s),
{
    lemma_quote_body_reads(s);
    assert(shell_quoted(s).drop_first() =~= quote_body(s) + seq!['\'']);
}

/// Quotes one shell argument between single quotes.
pub fn shell_quote(value: &str) -> (r: String)
    ensures
        r@ == shell_quoted(value@),
{
    let v = chars_of(value);
    let mut out: Vec<char> = Vec::new();
    out.push('\'');
    let mut i: usize = v.len();
    let mut body: Vec<char> = Vec::new();
    // Build the body back to front so that each step prepends one quoted character.
    let mut k: usize = 0;
    while k < v.len()
        invariant
            k <= v.len(),
            v@ == value@,
            out@ == seq!['\''] + quote_body(v@.take(k as int)),
        decreases v.len() - k,
    {
        proof {
            lemma_quote_body_push(v@.take(k as int), v@[k as int]);
            assert(v@.take(k + 1) =~= v@.take(k as int).push(v@[k as int]));
        }
        if v[k] == '\'' {
            out.push('\'');
            out.push('\\');
            out.push('\'');
            out.push('\'');
        } else {
            out.push(v[k]);
        }
        k += 1;
        assert(out@ =~= seq!['\''] + quote_body(v@.take(k as int)));
    }
    out.push('\'');
    assert(v@.take(v.len() as int) =~= v@);
    assert(out@ =~= shell_quoted(value@));
    string_of(&out)
}

proof fn lemma_quote_body_push(s: Seq<char>, c: char)
    ensures
        quote_body(s.push(c)) == quote_body(s) + (if c == '\'' {
            seq!['\'', '\\', '\'', '\'']
        } else {
            seq![c]
        }),
    decreases s.len(),
{
    if s.len() == 0 {
        assert(s.push(c).drop_first() =~= Seq::<char>::empty());
        assert(quote_body(Seq::<char>::empty()) =~= Seq::<char>::empty());
    } else {
        assert(s.push(c).drop_first() =~= s.drop_first().push(c));
        lemma_quote_body_push(s.drop_first(), c);
    }
}


/// The sudo policy line: the account may run only the helper's `run`
/// operation, with one identifier of 1 to 64 letters, digits or hyphens.
pub open spec fn sudoers_text(username: Seq<char>) -> Seq<char> {
    username + " ALL=(root) NOPASSWD: "@ + HELPER_PATH@ + " ^run [A-Za-z0-9-]{1,64}$\n"@
}

pub fn sudoers_rule(username: &str) -> (r: Result<String, String>)
    ensures
        match r {
            Ok(t) => valid_username(username@) && t@ == sudoers_text(username@),
            Err(m) => !valid_username(username@) && m@
                == "current account name cannot be represented safely in sudo policy"@,
        },
{
    validate_username(username)?;
    let mut v = chars_of(username);
    push_str(&mut v, " ALL=(root) NOPASSWD: ");
    push_str(&mut v, HELPER_PATH);
    push_str(&mut v, " ^run [A-Za-z0-9-]{1,64}$\n");
    Ok(string_of(&v))
}

/// Words joined by single spaces.
pub open spec fn join_words(words: Seq<Seq<char>>) -> Seq<char>
    decreases words.len(),
{
    if words.len() == 0 {
        seq![]
    } else if words.len() == 1 {
        words[0]
    } else {
        join_words(words.drop_last()) + seq![' '] + words.last()
    }
}

pub open spec fn quoted_words(arguments: Seq<&str>) -> Seq<Seq<char>> {
    Seq::new(arguments.len(), |i: int| shell_quoted(arguments[i]@))
}

/// The shell command line that runs `arguments` verbatim: each argument
/// single-quoted, separated by spaces.
pub fn quoted_command(arguments: &[&str]) -> (r: String)
    ensures
        r@ == join_words(quoted_words(arguments@)),
{
    let ghost words = quoted_words(arguments@);
    let mut out: Vec<char> = Vec::new();
    let mut i: usize = 0;
    while i < arguments.len()
        invariant
            i <= arguments@.len(),
            words == quoted_words(arguments@),
            out@ == join_words(words.take(i as int)),
        decreases arguments@.len() - i,
    {
        if i > 0 {
            out.push(' ');
        }
        let q = shell_quote(arguments[i]);
        push_str(&mut out, q.as_str());
        assert(words.take(i + 1).drop_last() =~= words.take(i as int));
        assert(out@ =~= join_words(words.take(i + 1)));
        i += 1;
    }
    assert(words.take(arguments@.len() as int) =~= words);
    string_of(&out)
}

/// The authorized command that removes one job's approval.
pub fn revoke_job_request(id: &str) -> (r: Result<String, String>)
    ensures
        match r {
            Ok(c) => valid_job_id(id@) && c@ == join_words(
                seq![shell_quoted(HELPER_PATH@), shell_quoted("revoke"@), shell_quoted(id@)],
            ),
            Err(m) => !valid_job_id(id@) && m@ == "administrator job identifier is invalid"@,
        },
{
    validate_job_id(id)?;
    let arguments = [HELPER_PATH, "revoke", id];
    let c = quoted_command(arguments.as_slice());
    assert(quoted_words(arguments@) =~= seq![
        shell_quoted(HELPER_PATH@),
        shell_quoted("revoke"@),
        shell_quoted(id@),
    ]);
    Ok(c)
}

/// Exactly 64 hexadecimal digits: the form of a SHA-256 digest.
pub open spec fn is_digest_text(d: Seq<char>) -> bool {
    &&& d.len() == 64
    &&& forall|i: int| 0 <= i < 64 ==> is_ascii_hexdigit(#[trigger] d[i])
}

pub fn is_digest(d: &str) -> (b: bool)
    ensures
        b == is_digest_text(d@),
{
    let v = chars_of(d);
    if v.len() != 64 {
        return false;
    }
    let mut i: usize = 0;
    while i < 64
        invariant
            i <= 64,
            v@ == d@,
            v@.len() == 64,
            forall|k: int| 0 <= k < i ==> is_ascii_hexdigit(#[trigger] v@[k]),
        decreases 64 - i,
    {
        if !is_hexdigit(v[i]) {
            assert(!is_ascii_hexdigit(d@[i as int]));
            return false;
        }
        i += 1;
    }
    true
}

/// The installer run with administrator rights: copy the application to a
/// temporary root-owned file, check its digest, move it into place, then let
/// the installed helper finish the installation for `username`.
pub open spec fn installation_text(
    executable: Seq<char>,
    digest: Seq<char>,
    username: Seq<char>,
    process_id: nat,
) -> Seq<char> {
    let temporary = shell_quoted(HELPER_PATH@ + ".new-"@ + decimal(process_id));
    let destination = shell_quoted(HELPER_PATH@);
    "set -eu; temporary="@ + temporary
        + "; trap '/bin/rm -f -- \"$temporary\"' EXIT; /usr/bin/install -o root -g wheel -m 0755 "@
        + shell_quoted(executable)
        + " \"$temporary\"; actual=$(/usr/bin/shasum -a 256 \"$temporary\" | /usr/bin/cut -d ' ' -f 1); test \"$actual\" = "@
        + shell_quoted(digest) + "; /bin/mv -f \"$temporary\" "@ + destination
        + "; trap - EXIT; "@ + destination + " finish-install "@ + shell_quoted(username)
}

pub fn installation_script(executable: &str, digest: &str, username: &str, process_id: u32) -> (r:
    Result<String, String>)
    ensures
        match r {
            Ok(t) => valid_username(username@) && is_digest_text(digest@) && t@
                == installation_text(executable@, digest@, username@, process_id as nat),
            Err(m) => if !valid_username(username@) {
                m@ == "current account name cannot be represented safely in sudo policy"@
            } else {
                !is_digest_text(digest@) && m@ == "application digest is invalid"@
            },
        },
{
    validate_username(username)?;
    if !is_digest(digest) {
        return Err("application digest is invalid".to_string());
    }
    let mut helper = chars_of(HELPER_PATH);
    push_str(&mut helper, ".new-");
    push_decimal(&mut helper, process_id as u64);
    let temporary = shell_quote(string_of(&helper).as_str());
    let source = shell_quote(executable);
    let destination = shell_quote(HELPER_PATH);
    let expected = shell_quote(digest);
    let account = shell_quote(username);
    let mut v = chars_of("set -eu; temporary=");
    push_str(&mut v, temporary.as_str());
    push_str(
        &mut v,
        "; trap '/bin/rm -f -- \"$temporary\"' EXIT; /usr/bin/install -o root -g wheel -m 0755 ",
    );
    push_str(&mut v, source.as_str());
    push_str(
        &mut v,
        " \"$temporary\"; actual=$(/usr/bin/shasum -a 256 \"$temporary\" | /usr/bin/cut -d ' ' -f 1); test \"$actual\" = ",
    );
    push_str(&mut v, expected.as_str());
    push_str(&mut v, "; /bin/mv -f \"$temporary\" ");
    push_str(&mut v, destination.as_str());
    push_str(&mut v, "; trap - EXIT; ");
    push_str(&mut v, destination.as_str());
    push_str(&mut v, " finish-install ");
    push_str(&mut v, account.as_str());
    Ok(string_of(&v))
}

pub fn validate_approval_digest(expected_digest: &str) -> (r: Result<(), String>)
    ensures
        match r {
            Ok(()) => is_digest_text(expected_digest@),
            Err(m) => !is_digest_text(expected_digest@) && m@ == "invalid approval digest"@,
        },
{
    if is_digest(expected_digest) {
        Ok(())
    } else {
        Err("invalid approval digest".to_string())
    }
}

pub open spec fn lower(s: Seq<char>) -> Seq<char> {
    Seq::new(s.len(), |i: int| ascii_lower(s[i]))
}

/// Whether the manifest read back is the one the user authorized: its
/// SHA-256 digest equals the expected digest, compared in lowercase.
pub fn check_manifest_digest(manifest: &[u8], expected_digest: &str) -> (r: Result<(), String>)
    ensures
        match r {
            Ok(()) => hex_bytes(sha256(manifest@)) == lower(expected_digest@),
            Err(m) => hex_bytes(sha256(manifest@)) != lower(expected_digest@) && m@
                == "approval manifest changed before authorization completed"@,
        },
{
    let actual = chars_of(sha256_hex(manifest).as_str());
    let expected = chars_of(expected_digest);
    let mut lowered: Vec<char> = Vec::new();
    let mut i: usize = 0;
    while i < expected.len()
        invariant
            i <= expected.len(),
            lowered@ =~= lower(expected@).take(i as int),
        decreases expected.len() - i,
    {
        lowered.push(to_lower(expected[i]));
        i += 1;
    }
    assert(lowered@ =~= lower(expected_digest@));
    if chars_eq(&actual, &lowered) {
        Ok(())
    } else {
        Err("approval manifest changed before authorization completed".to_string())
    }
}

/// Checks a job read back by the helper: a valid job, stored under the
/// identifier it was requested by.
pub fn check_approved_job(requested_id: &str, job_id: &str, job_command: &str) -> (r: Result<
    (),
    String,
>)
    ensures
        match r {
            Ok(()) => job_error(job_id@, job_command@, job_command.spec_bytes()) is None && job_id@
                == requested_id@,
            Err(m) => match job_error(job_id@, job_command@, job_command.spec_bytes()) {
                Some(e) => m@ == e,
                None => job_id@ != requested_id@ && m@
                    == "approved job identifier does not match its filename"@,
            },
        },
{
    validate_job(job_id, job_command)?;
    if !chars_eq(&chars_of(job_id), &chars_of(requested_id)) {
        return Err("approved job identifier does not match its filename".to_string());
    }
    Ok(())
}

/// Ownership and permission facts about one file system entry.
#[derive(Debug, Clone, Copy)]
pub struct FileFacts {
    pub uid: u32,
    pub mode: u32,
    pub is_file: bool,
    pub is_dir: bool,
}

/// Root-owned and not writable by group or others.
pub open spec fn root_protected(f: FileFacts) -> bool {
    f.uid == 0 && f.mode & 0o022u32 == 0
}

/// An approved job file can be trusted: a root-owned regular file that no
/// one else can read or write.
pub open spec fn job_file_safe(f: FileFacts) -> bool {
    f.uid == 0 && f.mode & 0o077u32 == 0 && f.is_file
}

pub fn check_job_file(f: FileFacts) -> (r: Result<(), String>)
    ensures
        match r {
            Ok(()) => job_file_safe(f),
            Err(m) => !job_file_safe(f) && m@ == "approved administrator job has unsafe permissions"@,
        },
{
    if f.uid != 0 || f.mode & 0o077 != 0 || !f.is_file {
        Err("approved administrator job has unsafe permissions".to_string())
    } else {
        Ok(())
    }
}

/// Whether the installed pieces have safe ownership and permissions.
pub open spec fn installation_sound(
    helper: FileFacts,
    sudoers: Option<FileFacts>,
    jobs: Option<FileFacts>,
    jobs_parent: Option<FileFacts>,
) -> bool {
    &&& helper.is_file && root_protected(helper)
    &&& (sudoers matches Some(f) && root_protected(f) && f.is_file)
    &&& (jobs matches Some(f) && f.uid == 0 && f.mode & 0o077u32 == 0 && f.is_dir)
    &&& (jobs_parent matches Some(f) && root_protected(f) && f.is_dir)
}

/// No permission bit for group or others is set: the low six bits of the
/// mode (group `rwx`, other `rwx`) are all zero.
pub open spec fn private_to_owner(mode: u32) -> bool {
    mode % 64 == 0
}

/// Neither group nor others may write: the group-write bit (16) and the
/// other-write bit (2) are clear.
pub open spec fn unwritable_by_others(mode: u32) -> bool {
    (mode / 16) % 2 == 0 && (mode / 2) % 2 == 0
}

proof fn lemma_mode_bits(mode: u32)
    ensures
        (mode & 0o077u32 == 0) == private_to_owner(mode),
        (mode & 0o022u32 == 0) == unwritable_by_others(mode),
{
    assert((mode & 0o077u32 == 0) == (mode % 64 == 0)) by (bit_vector);
    assert((mode & 0o022u32 == 0) == ((mode / 16) % 2 == 0 && (mode / 2) % 2 == 0)) by (bit_vector);
}

/// A job file is trusted exactly when it is a regular file owned by root
/// with no group or other permission bits: the owner's own bits (0600,
/// 0700, ...) and the file-type bits play no part.
pub proof fn lemma_job_file_trust(f: FileFacts)
    ensures
        job_file_safe(f) <==> (f.uid == 0 && f.is_file && private_to_owner(f.mode)),
{
    lemma_mode_bits(f.mode);
}

/// The installation is sound exactly when the helper and the sudoers rule
/// are root-owned regular files no one else can write, the jobs directory is
/// a root-owned directory with no group or other permission bits (such as
/// 0700), and its parent is a root-owned directory no one else can write.
pub proof fn lemma_installation_soundness(
    helper: FileFacts,
    sudoers: Option<FileFacts>,
    jobs: Option<FileFacts>,
    jobs_parent: Option<FileFacts>,
)
    ensures
        installation_sound(helper, sudoers, jobs, jobs_parent) <==> {
            &&& helper.is_file && helper.uid == 0 && unwritable_by_others(helper.mode)
            &&& sudoers matches Some(f) && f.is_file && f.uid == 0 && unwritable_by_others(f.mode)
            &&& jobs matches Some(f) && f.is_dir && f.uid == 0 && private_to_owner(f.mode)
            &&& jobs_parent matches Some(f) && f.is_dir && f.uid == 0 && unwritable_by_others(f.mode)
        },
{
    lemma_mode_bits(helper.mode);
    if let Some(f) = sudoers {
        lemma_mode_bits(f.mode);
    }
    if let Some(f) = jobs {
        lemma_mode_bits(f.mode);
    }
    if let Some(f) = jobs_parent {
        lemma_mode_bits(f.mode);
    }
}

/// Judges the installed helper from the facts about its files and whether
/// its contents equal the running application.
pub fn service_status_from(
    helper: Option<FileFacts>,
    sudoers: Option<FileFacts>,
    jobs: Option<FileFacts>,
    jobs_parent: Option<FileFacts>,
    helper_matches_application: bool,
) -> (s: ServiceStatus)
    ensures
        match helper {
            None => !s.installed && !s.healthy && !s.current && s.message@ == "Not installed"@,
            Some(h) => if !installation_sound(h, sudoers, jobs, jobs_parent) {
                s.installed && !s.healthy && !s.current && s.message@
                    == "Installation needs repair"@
            } else {
                s.installed && s.healthy && s.current == helper_matches_application && s.message@
                    == (if helper_matches_application {
                    "Ready for unattended administrator jobs"@
                } else {
                    "Helper update available"@
                })
            },
        },
{
    let h = match helper {
        None => {
            return ServiceStatus {
                installed: false,
                healthy: false,
                current: false,
                message: "Not installed".to_string(),
            };
        },
        Some(h) => h,
    };
    let sudoers_ok = match sudoers {
        Some(f) => f.uid == 0 && f.mode & 0o022 == 0 && f.is_file,
        None => false,
    };
    let jobs_ok = match jobs {
        Some(f) => f.uid == 0 && f.mode & 0o077 == 0 && f.is_dir,
        None => false,
    };
    let parent_ok = match jobs_parent {
        Some(f) => f.uid == 0 && f.mode & 0o022 == 0 && f.is_dir,
        None => false,
    };
    if !h.is_file || h.uid != 0 || h.mode & 0o022 != 0 || !sudoers_ok || !jobs_ok || !parent_ok {
        return ServiceStatus {
            installed: true,
            healthy: false,
            current: false,
            message: "Installation needs repair".to_string(),
        };
    }
    ServiceStatus {
        installed: true,
        healthy: true,
        current: helper_matches_application,
        message: if helper_matches_application {
            "Ready for unattended administrator jobs".to_string()
        } else {
            "Helper update available".to_string()
        },
    }
}

/// The menu bar's warning text for an installed helper that needs attention.
pub fn helper_alert_tooltip(status: &ServiceStatus) -> (r: Option<&'static str>)
    ensures
        !status.installed ==> r is None,
        status.installed && !status.healthy ==> (r matches Some(t) && t@
            == "Grindlewald — Helper repair required"@),
        status.installed && status.healthy && !status.current ==> (r matches Some(t) && t@
            == "Grindlewald — Helper update required"@),
        status.installed && status.healthy && status.current ==> r is None,
{
    if !status.installed {
        None
    } else if !status.healthy {
        Some("Grindlewald — Helper repair required")
    } else if !status.current {
        Some("Grindlewald — Helper update required")
    } else {
        None
    }
}

/// One operation of the helper executable, from its command-line arguments.
#[derive(Debug)]
pub enum HelperRequest {
    Status,
    FinishInstall(String),
    Approve(String, String),
    Revoke(String),
    Run(String),
    Uninstall,
}

impl HelperRequest {
    /// Every operation but `status` needs root.
    pub open spec fn spec_needs_root(self) -> bool {
        !(self is Status)
    }

    pub fn needs_root(&self) -> (b: bool)
        ensures
            b == self.spec_needs_root(),
    {
        !matches!(self, HelperRequest::Status)
    }
}

fn copy_string(s: &String) -> (r: String)
    ensures
        r@ == s@,
{
    string_of(&chars_of(s.as_str()))
}

fn is_word(s: &String, word: &str) -> (b: bool)
    ensures
        b == (s@ == word@),
{
    chars_eq(&chars_of(s.as_str()), &chars_of(word))
}

/// Reads the helper's arguments (after the program name).
pub fn parse_helper_request(arguments: &Vec<String>) -> (r: Result<HelperRequest, String>)
    ensures
        ({
            let a = arguments@;
            match r {
                Ok(HelperRequest::Status) => a.len() == 1 && a[0]@ == "status"@,
                Ok(HelperRequest::FinishInstall(u)) => a.len() == 2 && a[0]@ == "finish-install"@
                    && u@ == a[1]@,
                Ok(HelperRequest::Approve(path, digest)) => a.len() == 3 && a[0]@ == "approve"@
                    && path@ == a[1]@ && digest@ == a[2]@,
                Ok(HelperRequest::Revoke(id)) => a.len() == 2 && a[0]@ == "revoke"@ && id@ == a[1]@,
                Ok(HelperRequest::Run(id)) => a.len() == 2 && a[0]@ == "run"@ && id@ == a[1]@,
                Ok(HelperRequest::Uninstall) => a.len() == 1 && a[0]@ == "uninstall"@,
                Err(m) => m@ == "invalid operation or arguments"@ && !(a.len() == 1 && (a[0]@
                    == "status"@ || a[0]@ == "uninstall"@)) && !(a.len() == 2 && (a[0]@
                    == "finish-install"@ || a[0]@ == "revoke"@ || a[0]@ == "run"@)) && !(a.len()
                    == 3 && a[0]@ == "approve"@),
            }
        }),
{
    let n = arguments.len();
    if n == 1 {
        if is_word(&arguments[0], "status") {
            return Ok(HelperRequest::Status);
        }
        if is_word(&arguments[0], "uninstall") {
            return Ok(HelperRequest::Uninstall);
        }
    } else if n == 2 {
        if is_word(&arguments[0], "finish-install") {
            return Ok(HelperRequest::FinishInstall(copy_string(&arguments[1])));
        }
        if is_word(&arguments[0], "revoke") {
            return Ok(HelperRequest::Revoke(copy_string(&arguments[1])));
        }
        if is_word(&arguments[0], "run") {
            return Ok(HelperRequest::Run(copy_string(&arguments[1])));
        }
    } else if n == 3 {
        if is_word(&arguments[0], "approve") {
            return Ok(
                HelperRequest::Approve(copy_string(&arguments[1]), copy_string(&arguments[2])),
            );
        }
    }
    Err("invalid operation or arguments".to_string())
}

/// The error text of a failed process: its trimmed standard error, or its
/// exit status when standard error is empty.
pub fn output_error(context: &str, stderr: &str, status: &str) -> (m: String)
    ensures
        m@ == context@ + ": "@ + (if trim(stderr@).len() == 0 {
            status@
        } else {
            trim(stderr@)
        }),
{
    let mut v = chars_of(context);
    push_str(&mut v, ": ");
    let t = trim_str(stderr);
    if t.len() == 0 {
        push_str(&mut v, status);
    } else {
        push_chars(&mut v, &t);
    }
    string_of(&v)
}

/// Whether `pattern` occurs in `s`.
pub open spec fn contains_text(s: Seq<char>, pattern: Seq<char>) -> bool {
    exists|i: int| 0 <= i <= s.len() - pattern.len() && #[trigger] s.subrange(i, i + pattern.len()) == pattern
}

fn find_text(s: &Vec<char>, pattern: &Vec<char>) -> (b: bool)
    ensures
        b == contains_text(s@, pattern@),
{
    if pattern.len() > s.len() {
        return false;
    }
    if pattern.len() == 0 {
        assert(s@.subrange(0int, 0int + pattern@.len()) =~= pattern@);
        return true;
    }
    let last = s.len() - pattern.len();
    let mut i: usize = 0;
    while i <= last
        invariant
            last == s@.len() - pattern@.len(),
            1 <= pattern@.len() <= s@.len() <= usize::MAX,
            i <= last + 1,
            forall|k: int| 0 <= k < i ==> #[trigger] s@.subrange(k, k + pattern@.len()) != pattern@,
        decreases last + 1 - i,
    {
        let mut j: usize = 0;
        let mut same = true;
        while j < pattern.len()
            invariant
                j <= pattern@.len(),
                i <= last,
                last == s@.len() - pattern@.len(),
                1 <= pattern@.len() <= s@.len() <= usize::MAX,
                same ==> forall|k: int| 0 <= k < j ==> s@[i + k] == pattern@[k],
                !same ==> s@.subrange(i as int, i + pattern@.len()) != pattern@,
            decreases pattern@.len() - j,
        {
            if s[i + j] != pattern[j] {
                assert(s@.subrange(i as int, i + pattern@.len())[j as int] != pattern@[j as int]);
                same = false;
            }
            j += 1;
        }
        if same {
            assert(s@.subrange(i as int, i + pattern@.len()) =~= pattern@);
            return true;
        }
        i += 1;
    }
    false
}

/// Whether the authorization prompt reported that the user cancelled it.
pub fn is_authorization_cancel(stderr: &str) -> (b: bool)
    ensures
        b == (contains_text(stderr@, "User canceled"@) || contains_text(stderr@, "-128"@)),
{
    let s = chars_of(stderr);
    find_text(&s, &chars_of("User canceled")) || find_text(&s, &chars_of("-128"))
}

}

//! The compute side of the administrative commands: argument validation,
//! dump bounds and rendering, check verdicts, and byte sanitizing. The
//! commands' file reading and printing stay outside the library.
use vstd::prelude::*;

use vstd::string::StringExecFns;

verus! {

/// Whether a path names an existing file or directory. The answer depends
/// on the file system at the moment of the call, so nothing is promised of
/// it.
///
/// Relies on std::path::Path::exists.
#[verifier::external_body]
fn path_exists(p: &str) -> bool {
    std::path::Path::new(p).exists()
}

/// The message a missing path is rejected with.
pub open spec fn missing_path_msg() -> Seq<char> {
    "Path not exists"@
}

/// Decide a path argument given whether it exists: an existing path is
/// accepted as it stands, a missing one rejected with the fixed message.
pub fn validate_path_with(p: &str, exists: bool) -> (r: Result<String, String>)
    ensures
        exists <==> r is Ok,
        r is Ok ==> r->Ok_0@ == p@,
        r is Err ==> r->Err_0@ == missing_path_msg(),
{
    proof {
        reveal_strlit("Path not exists");
    }
    if exists {
        Ok(String::from_str(p))
    } else {
        Err(String::from_str("Path not exists"))
    }
}

/// Validate a path argument: accepted exactly when it exists on disk at the
/// moment of the call.
pub fn validate_path(p: &str) -> (r: Result<String, String>)
    ensures
        r is Ok ==> r->Ok_0@ == p@,
        r is Err ==> r->Err_0@ == missing_path_msg(),
{
    let exists = path_exists(p);
    validate_path_with(p, exists)
}

/// A printable ASCII byte stands for itself; anything else prints as a dot.
pub open spec fn spec_sanitize_byte(b: u8) -> char {
    if 0x20 <= b < 0x7f {
        b as char
    } else {
        '.'
    }
}

/// Sanitize one byte for terminal output.
pub fn sanitize_byte(b: u8) -> (r: char)
    ensures
        r == spec_sanitize_byte(b),
{
    if 0x20 <= b && b < 0x7f {
        b as char
    } else {
        '.'
    }
}

/// Sanitize a whole key for terminal output, byte for byte.
pub fn sanitize_key(key: &[u8]) -> (r: Vec<char>)
    ensures
        r@.len() == key@.len(),
        forall|i: int| 0 <= i < key@.len() ==> r@[i] == spec_sanitize_byte(key@[i]),
{
    let mut r: Vec<char> = Vec::new();
    let mut i: usize = 0;
    while i < key.len()
        invariant
            i <= key@.len(),
            r@.len() == i,
            forall|j: int| 0 <= j < i ==> r@[j] == spec_sanitize_byte(key@[j]),
        decreases key@.len() - i,
    {
        r.push(sanitize_byte(key[i]));
        i = i + 1;
    }
    r
}

/// Byte offset of page `id`, rejected when it lies past the end of the
/// file or does not fit the address space.
pub fn dump_offset(id: u64, page_size: u32, file_len: u64) -> (r: Result<u64, String>)
    ensures
        id * page_size <= u64::MAX && id * page_size <= file_len ==> r is Ok && r->Ok_0 == id
            * page_size,
        id * page_size > file_len || id * page_size > u64::MAX ==> r is Err
            && r->Err_0@ == "ID out of bounds"@,
{
    proof {
        reveal_strlit("ID out of bounds");
    }
    match crate::page::page_offset(id, page_size) {
        Some(offset) => if offset > file_len {
            Err(String::from_str("ID out of bounds"))
        } else {
            Ok(offset)
        },
        None => Err(String::from_str("ID out of bounds")),
    }
}

/// How many bytes of a page record to dump: the record's full span, capped
/// by the requested limit.
pub fn dump_take(page_size: u32, overflow: u32, limit: Option<u64>) -> (r: u64)
    ensures
        limit is None ==> r == (overflow + 1) * (page_size as int),
        limit matches Some(l) ==> r == if l < (overflow + 1) * (page_size as int) {
            l as int
        } else {
            (overflow + 1) * (page_size as int)
        },
{
    let span = crate::page::page_span(overflow, page_size);
    match limit {
        Some(l) => if l < span {
            l
        } else {
            span
        },
        None => span,
    }
}

/// What the hexdump crate renders a byte slice as, line by line.
pub uninterp spec fn hexdump_lines_of(b: Seq<u8>) -> Seq<Seq<char>>;

/// Render bytes as hexdump lines: sixteen bytes per line plus one summary
/// line.
///
/// Relies on hexdump::hexdump_iter: the lines are a function of the bytes
/// alone, one line per started group of sixteen bytes and a final summary
/// line.
#[verifier::external_body]
fn hexdump_lines(bytes: &[u8]) -> (r: Vec<String>)
    ensures
        r@.map_values(|s: String| s@) == hexdump_lines_of(bytes@),
        r@.len() == (bytes@.len() + 15) / 16 + 1,
{
    hexdump::hexdump_iter(bytes).map(|line| line.to_string()).collect()
}

/// The lines, each closed by a newline, laid end to end.
pub open spec fn spec_joined_lines(lines: Seq<Seq<char>>) -> Seq<char>
    decreases lines.len(),
{
    if lines.len() == 0 {
        Seq::empty()
    } else {
        lines[0] + seq!['\n'] + spec_joined_lines(lines.drop_first())
    }
}

/// Appending one more line extends the joined text by that line and its
/// newline.
proof fn lemma_joined_take_succ(lines: Seq<Seq<char>>, i: int)
    requires
        0 <= i < lines.len(),
    ensures
        spec_joined_lines(lines.take(i + 1)) =~= spec_joined_lines(lines.take(i)) + lines[i]
            + seq!['\n'],
    decreases i,
{
    if i == 0 {
        assert(lines.take(1)[0] =~= lines[0]);
        assert(lines.take(1).drop_first() =~= lines.take(0));
        assert(spec_joined_lines(lines.take(0)) =~= Seq::empty());
    } else {
        assert(lines.take(i + 1)[0] =~= lines[0]);
        assert(lines.take(i)[0] =~= lines[0]);
        assert(lines.take(i + 1).drop_first() =~= lines.drop_first().take(i));
        assert(lines.take(i).drop_first() =~= lines.drop_first().take(i - 1));
        assert(lines.drop_first()[i - 1] =~= lines[i]);
        lemma_joined_take_succ(lines.drop_first(), i - 1);
    }
}

/// The text the dump command prints for a page record: its hexdump, one
/// line per row, and a closing blank line.
pub fn dump_text(bytes: &[u8]) -> (r: String)
    ensures
        r@ == spec_joined_lines(hexdump_lines_of(bytes@)) + seq!['\n'],
{
    let lines = hexdump_lines(bytes);
    let ghost ls = lines@.map_values(|s: String| s@);
    let mut out = String::new();
    let mut i: usize = 0;
    proof {
        assert(ls.take(0) =~= Seq::<Seq<char>>::empty());
        assert(out@ =~= spec_joined_lines(ls.take(0)));
    }
    while i < lines.len()
        invariant
            i <= lines@.len(),
            ls == lines@.map_values(|s: String| s@),
            out@ == spec_joined_lines(ls.take(i as int)),
        decreases lines@.len() - i,
    {
        proof {
            lemma_joined_take_succ(ls, i as int);
            assert(ls[i as int] == lines@[i as int]@);
        }
        out.append(lines[i].as_str());
        out.append("\n");
        proof {
            reveal_strlit("\n");
            assert("\n"@ =~= seq!['\n']);
        }
        i = i + 1;
    }
    proof {
        assert(ls.take(lines@.len() as int) =~= ls);
    }
    out.append("\n");
    proof {
        reveal_strlit("\n");
        assert("\n"@ =~= seq!['\n']);
    }
    out
}

/// Wrap text in the terminal's red.
///
/// Relies on ansi_term::Colour::Red: painting brackets the text between the
/// red escape code and the reset code.
#[verifier::external_body]
fn paint_red(s: &str) -> (r: String)
    ensures
        r@ == seq!['\u{1b}', '[', '3', '1', 'm'] + s@ + seq!['\u{1b}', '[', '0', 'm'],
{
    ansi_term::Colour::Red.paint(s).to_string()
}

/// Wrap text in the terminal's green.
///
/// Relies on ansi_term::Colour::Green: painting brackets the text between
/// the green escape code and the reset code.
#[verifier::external_body]
fn paint_green(s: &str) -> (r: String)
    ensures
        r@ == seq!['\u{1b}', '[', '3', '2', 'm'] + s@ + seq!['\u{1b}', '[', '0', 'm'],
{
    ansi_term::Colour::Green.paint(s).to_string()
}

/// The all-clear line the check command prints.
pub open spec fn check_ok_msg() -> Seq<char> {
    seq!['\u{1b}', '[', '3', '2', 'm'] + "Everything ok"@ + seq!['\u{1b}', '[', '0', 'm']
}

/// The failure line the check command exits with.
pub open spec fn check_failed_msg() -> Seq<char> {
    seq!['\u{1b}', '[', '3', '1', 'm'] + "Check failed"@ + seq!['\u{1b}', '[', '0', 'm']
}

/// All clear in green when the count of violations is zero, a red failure
/// line otherwise.
pub fn check_verdict(error_count: usize) -> (r: Result<String, String>)
    ensures
        error_count == 0 <==> r is Ok,
        r is Ok ==> r->Ok_0@ == check_ok_msg(),
        r is Err ==> r->Err_0@ == check_failed_msg(),
{
    proof {
        reveal_strlit("Everything ok");
        reveal_strlit("Check failed");
    }
    if error_count == 0 {
        Ok(paint_green("Everything ok"))
    } else {
        Err(paint_red("Check failed"))
    }
}

/// An ASCII letter or digit.
pub open spec fn spec_ascii_alnum(c: char) -> bool {
    let u = c as u32;
    (48 <= u <= 57) || (65 <= u <= 90) || (97 <= u <= 122)
}

/// A random alphanumeric string of the requested length.
///
/// Relies on rand::distr::Alphanumeric via SampleString: every sample is
/// drawn from the ASCII letters and digits, one character each, so the
/// string has exactly the requested length and every character is
/// alphanumeric, whatever the random values; nothing more holds of them.
#[verifier::external_body]
fn rand_alnum(len: usize) -> (r: String)
    ensures
        r@.len() == len,
        forall|i: int| 0 <= i < r@.len() ==> spec_ascii_alnum(#[trigger] r@[i]),
{
    rand::distr::SampleString::sample_string(&rand::distr::Alphanumeric, &mut rand::rng(), len)
}

/// A random alphanumeric string, for scratch database file names.
pub fn random_string(len: usize) -> (r: String)
    ensures
        r@.len() == len,
        forall|i: int| 0 <= i < r@.len() ==> spec_ascii_alnum(#[trigger] r@[i]),
{
    rand_alnum(len)
}

} // verus!

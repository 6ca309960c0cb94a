//! A copy of everything that cannot be rebuilt: the server key, which every
//! agent and viewer pinned, the database, and the HTTPS certificate where it
//! is one the server made.
//!
//! Release packages are not copied: they are large, and they can be
//! downloaded again.

use super::config::Tls;
use crate::text::{column, decimal, push_column, push_decimal, push_right_column, right_column};
use vstd::prelude::*;

verus! {

/// `n / d` to the nearest whole number; a tie goes to the even one.
pub open spec fn rounded(n: int, d: int) -> int {
    let rest = n % d;
    if 2 * rest > d || (2 * rest == d && n / d % 2 == 1) {
        n / d + 1
    } else {
        n / d
    }
}

fn round(n: u128, d: u128) -> (r: u128)
    requires
        0 < d <= 0x1_0000_0000,
        n <= 0xffff_ffff_ffff_ffff_ffff,
    ensures
        r == rounded(n as int, d as int),
        r <= n + 1,
{
    let whole: u128 = n / d;
    let rest: u128 = n % d;
    assert(whole <= n) by (nonlinear_arith)
        requires
            whole == n / d,
            d > 0,
    ;
    assert(rest < d);
    if 2 * rest > d || (2 * rest == d && whole % 2 == 1) {
        whole + 1
    } else {
        whole
    }
}

/// Megabytes, to a tenth.
pub open spec fn megabytes_of(bytes: u64) -> Seq<char> {
    let tenths = rounded(bytes as int * 10, 1_048_576);
    decimal((tenths / 10) as nat) + "."@ + decimal((tenths % 10) as nat) + " MB"@
}

/// How much files take, in megabytes.
pub fn megabytes(bytes: u64) -> (text: String)
    ensures
        text@ == megabytes_of(bytes),
{
    let tenths: u128 = round(bytes as u128 * 10, 1_048_576);
    assert(tenths <= 0x1_0000_0000_0000_0000) by {
        assert(bytes as int * 10 / 1_048_576 <= 0xffff_ffff_ffff_ffff);
    }
    let whole: u64 = (tenths / 10) as u64;
    let tenth: u64 = (tenths % 10) as u64;
    let mut text = String::new();
    push_decimal(&mut text, whole);
    text.append(".");
    push_decimal(&mut text, tenth);
    text.append(" MB");
    assert(text@ =~= megabytes_of(bytes));
    text
}

/// How much a file takes: bytes, then kilobytes, then megabytes to a tenth.
pub open spec fn size_of_file(bytes: u64) -> Seq<char> {
    if bytes <= 9_999 {
        decimal(bytes as nat) + " B"@
    } else if bytes <= 9_999_999 {
        decimal(rounded(bytes as int, 1024) as nat) + " KB"@
    } else {
        megabytes_of(bytes)
    }
}

/// How much a file takes, as people read it.
pub fn size(bytes: u64) -> (text: String)
    ensures
        text@ == size_of_file(bytes),
{
    if bytes > 9_999_999 {
        return megabytes(bytes);
    }
    let mut text = String::new();
    if bytes <= 9_999 {
        push_decimal(&mut text, bytes);
        text.append(" B");
    } else {
        let kilobytes: u128 = round(bytes as u128, 1024);
        push_decimal(&mut text, kilobytes as u64);
        text.append(" KB");
    }
    assert(text@ =~= size_of_file(bytes));
    text
}

/// One file of a backup.
#[derive(Debug)]
pub struct Copied {
    pub file: String,
    pub bytes: u64,
    /// What is in it, in words.
    pub name: String,
}

/// The HTTPS certificate and its key, when the server cannot make them again:
/// what they are called, and what they are. Files given to the server belong
/// to whatever issued them.
pub fn certificate(tls: &Tls) -> (files: Vec<(String, String)>)
    ensures
        match tls {
            Tls::SelfSigned => {
                &&& files@.len() == 2
                &&& files@[0].0@ == "https.crt"@
                &&& files@[0].1@ == "the certificate browsers saw"@
                &&& files@[1].0@ == "https.key"@
                &&& files@[1].1@ == "its key"@
            },
            _ => files@.len() == 0,
        },
{
    let mut files: Vec<(String, String)> = Vec::new();
    if let Tls::SelfSigned = tls {
        files.push(("https.crt".to_owned(), "the certificate browsers saw".to_owned()));
        files.push(("https.key".to_owned(), "its key".to_owned()));
    }
    files
}

/// A file of a backup, as it is listed.
pub open spec fn copied_line(copied: Copied) -> Seq<char> {
    "  "@ + column(copied.file@, 16) + " "@ + right_column(size_of_file(copied.bytes), 10) + "  "@
        + copied.name@ + "\n"@
}

pub open spec fn copied_lines(copied: Seq<Copied>) -> Seq<char>
    decreases copied.len(),
{
    if copied.len() == 0 {
        Seq::empty()
    } else {
        copied_lines(copied.drop_last()) + copied_line(copied.last())
    }
}

/// What is said of a backup: what is in it, and how to go back to it.
pub open spec fn reported_as(to: Seq<char>, data: Seq<char>, copied: Seq<Copied>) -> Seq<char> {
    "Backed up to "@ + to + ":\n"@ + copied_lines(copied)
        + "\nKeep this off the server. The key is the one agents pinned:\n"@
        + "without it they all have to be installed again.\n"@
        + "\nTo restore: stop the server, put these files in "@ + data + "\n"@
        + "and start it. Release packages are not here; upload them again\n"@
        + "from the project's releases if agents update from this server.\n"@
}

pub fn report(to: &str, data: &str, copied: &[Copied]) -> (text: String)
    ensures
        text@ == reported_as(to@, data@, copied@),
{
    let mut text = "Backed up to ".to_owned();
    text.append(to);
    text.append(":\n");
    let ghost head = text@;
    let mut n: usize = 0;
    assert(text@ =~= head + copied_lines(copied@.take(0)));
    while n < copied.len()
        invariant
            n <= copied@.len(),
            text@ == head + copied_lines(copied@.take(n as int)),
        decreases copied.len() - n,
    {
        assert(copied@.take(n + 1).drop_last() =~= copied@.take(n as int));
        text.append("  ");
        push_column(&mut text, &copied[n].file, 16);
        text.append(" ");
        push_right_column(&mut text, &size(copied[n].bytes), 10);
        text.append("  ");
        text.append(&copied[n].name);
        text.append("\n");
        assert(text@ =~= head + copied_lines(copied@.take(n + 1)));
        n = n + 1;
    }
    assert(copied@.take(n as int) =~= copied@);
    text.append("\nKeep this off the server. The key is the one agents pinned:\n");
    text.append("without it they all have to be installed again.\n");
    text.append("\nTo restore: stop the server, put these files in ");
    text.append(data);
    text.append("\n");
    text.append("and start it. Release packages are not here; upload them again\n");
    text.append("from the project's releases if agents update from this server.\n");
    text
}

/// Why a backup cannot be taken into a folder that is there already.
pub fn exists_already(to: &str) -> (text: String)
    ensures
        text@ == to@
            + " exists already: give a folder that does not, so a backup cannot quietly overwrite another"@,
{
    let mut text = to.to_owned();
    text.append(
        " exists already: give a folder that does not, so a backup cannot quietly overwrite another",
    );
    text
}

/// Why there is nothing to back up without a key.
pub fn no_key(data: &str) -> (text: String)
    ensures
        text@ == data@ + " has no server key: there is nothing here to back up yet"@,
{
    let mut text = data.to_owned();
    text.append(" has no server key: there is nothing here to back up yet");
    text
}

/// What is rounded is off by a half at most, and where it is off by just a half
/// it is even.
pub proof fn lemma_the_nearest_whole_number(n: int, d: int)
    requires
        0 <= n && 0 < d,
    ensures
        2 * (rounded(n, d) * d) - 2 * n <= d,
        2 * n - 2 * (rounded(n, d) * d) <= d,
        2 * (rounded(n, d) * d) - 2 * n == d || 2 * n - 2 * (rounded(n, d) * d) == d ==> rounded(n, d)
            % 2 == 0,
{
    let q = n / d;
    let rest = n % d;
    assert(n == q * d + rest && 0 <= rest < d) by (nonlinear_arith)
        requires
            q == n / d,
            rest == n % d,
            d > 0,
    ;
    assert((q + 1) * d == q * d + d) by (nonlinear_arith);
}

/// A small file is counted in bytes, a larger one in kilobytes, and from ten
/// million bytes on in megabytes, to a tenth.
pub proof fn lemma_sizes_are_shown(bytes: u64) -> (shown: (nat, nat))
    ensures
        bytes < 10_000 ==> size_of_file(bytes) == decimal(bytes as nat) + " B"@,
        10_000 <= bytes < 10_000_000 ==> size_of_file(bytes) == decimal(shown.0) + " KB"@
            && -512 <= bytes - shown.0 * 1024 <= 512,
        10_000_000 <= bytes ==> size_of_file(bytes) == megabytes_of(bytes),
        megabytes_of(bytes) == decimal(shown.1 / 10) + "."@ + decimal(shown.1 % 10) + " MB"@,
        -524_288 <= bytes * 10 - shown.1 * 1_048_576 <= 524_288,
{
    lemma_the_nearest_whole_number(bytes as int, 1024);
    lemma_the_nearest_whole_number(bytes as int * 10, 1_048_576);
    (rounded(bytes as int, 1024) as nat, rounded(bytes as int * 10, 1_048_576) as nat)
}

}

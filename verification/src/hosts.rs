use vstd::prelude::*;
use vstd::string::{StrSliceExecFns, StringExecFns};

use crate::text::{find_from, find_in_str, is_match_at, lemma_find_from_first};

verus! {

/// The sentinel line that opens the managed block in the system hosts file.
pub open spec fn spec_content_start() -> Seq<char> {
    "# --- SWITCHHOSTS_RS_CONTENT_START ---"@
}

/// The sentinel line that closes the managed block in the system hosts file.
pub open spec fn spec_content_end() -> Seq<char> {
    "# --- SWITCHHOSTS_RS_CONTENT_END ---"@
}

pub fn content_start() -> (r: &'static str)
    ensures
        r@ == spec_content_start(),
{
    "# --- SWITCHHOSTS_RS_CONTENT_START ---"
}

pub fn content_end() -> (r: &'static str)
    ensures
        r@ == spec_content_end(),
{
    "# --- SWITCHHOSTS_RS_CONTENT_END ---"
}

/// The fixed path of the system hosts file on Unix-like targets.
pub fn get_sys_hosts_path() -> (r: String)
    ensures
        r@ == "/etc/hosts"@,
{
    String::from_str("/etc/hosts")
}

/// The hosts-file text that appending a fresh managed block produces: the old
/// text, one blank line, then the block `START \n body \n END \n`.
pub open spec fn appended_block(cur: Seq<char>, body: Seq<char>) -> Seq<char> {
    cur + "\n\n"@ + spec_content_start() + "\n"@ + body + "\n"@ + spec_content_end() + "\n"@
}

/// The hosts-file text after merging `body` into `cur`.
///
/// When both sentinel lines are present (first occurrence each) and do not
/// overlap, everything strictly between them is replaced with `\n body \n`;
/// everything outside them is preserved. Otherwise the text is preserved and a
/// fresh managed block is appended at the end.
pub open spec fn merged_hosts(cur: Seq<char>, body: Seq<char>) -> Seq<char> {
    let s = spec_content_start();
    match (find_from(cur, s, 0), find_from(cur, spec_content_end(), 0)) {
        (Some(a), Some(b)) => if a + s.len() <= b {
            cur.subrange(0, a + s.len()) + "\n"@ + body + "\n"@ + cur.subrange(b, cur.len() as int)
        } else {
            appended_block(cur, body)
        },
        _ => appended_block(cur, body),
    }
}

/// Merge `appended` into the hosts-file text `current` inside the managed
/// block, per `merged_hosts`.
pub fn generate_sys_hosts_content(current: &str, appended: &str) -> (r: String)
    ensures
        r@ == merged_hosts(current@, appended@),
{
    let start_m = content_start();
    let end_m = content_end();
    let a_opt = find_in_str(current, start_m);
    let b_opt = find_in_str(current, end_m);
    let n = current.unicode_len();
    proof {
        lemma_find_from_first(current@, spec_content_start(), 0);
        lemma_find_from_first(current@, spec_content_end(), 0);
    }
    match (a_opt, b_opt) {
        (Some(a), Some(b)) if a + start_m.unicode_len() <= b => {
            let cut = a + start_m.unicode_len();
            let mut r = current.substring_char(0, cut).to_owned();
            r.append("\n");
            r.append(appended);
            r.append("\n");
            r.append(current.substring_char(b, n));
            proof {
                assert(r@ =~= merged_hosts(current@, appended@));
            }
            r
        },
        _ => {
            let mut r = current.to_owned();
            r.append("\n\n");
            r.append(start_m);
            r.append("\n");
            r.append(appended);
            r.append("\n");
            r.append(end_m);
            r.append("\n");
            proof {
                assert(r@ =~= merged_hosts(current@, appended@));
            }
            r
        },
    }
}

/// Replacing the managed block: when both sentinels are present, in order and
/// non-overlapping, the merged text keeps everything up to and including the
/// start sentinel and everything from the end sentinel on, byte for byte, and
/// holds exactly `\n body \n` in between.
pub proof fn lemma_merge_replaces_block(cur: Seq<char>, body: Seq<char>, a: int, b: int)
    requires
        find_from(cur, spec_content_start(), 0) == Some(a),
        find_from(cur, spec_content_end(), 0) == Some(b),
        a + spec_content_start().len() <= b,
    ensures
        merged_hosts(cur, body) == cur.subrange(0, a + spec_content_start().len()) + "\n"@ + body
            + "\n"@ + cur.subrange(b, cur.len() as int),
        merged_hosts(cur, body).subrange(0, a + spec_content_start().len()) == cur.subrange(
            0,
            a + spec_content_start().len(),
        ),
        merged_hosts(cur, body).subrange(
            merged_hosts(cur, body).len() - (cur.len() - b),
            merged_hosts(cur, body).len() as int,
        ) == cur.subrange(b, cur.len() as int),
{
    lemma_find_from_first(cur, spec_content_start(), 0);
    lemma_find_from_first(cur, spec_content_end(), 0);
    let m = merged_hosts(cur, body);
    let keep = a + spec_content_start().len();
    assert(m.subrange(0, keep) =~= cur.subrange(0, keep));
    assert(m.subrange(m.len() - (cur.len() - b), m.len() as int) =~= cur.subrange(
        b,
        cur.len() as int,
    ));
}

/// Appending a fresh block: when the start sentinel occurs nowhere in the
/// text, the merged text is the old text followed by exactly one blank-line
/// separated managed block.
pub proof fn lemma_merge_appends_block(cur: Seq<char>, body: Seq<char>)
    requires
        forall|k: int| !is_match_at(cur, spec_content_start(), k),
    ensures
        merged_hosts(cur, body) == appended_block(cur, body),
        merged_hosts(cur, body).subrange(0, cur.len() as int) == cur,
{
    lemma_find_from_first(cur, spec_content_start(), 0);
    assert(merged_hosts(cur, body).subrange(0, cur.len() as int) =~= cur);
}

/// The octal digits of `n`, most significant first, no leading zeros.
pub open spec fn spec_octal(n: nat) -> Seq<char>
    decreases n,
{
    let digit = oct_digit(n % 8);
    if n < 8 {
        seq![digit]
    } else {
        spec_octal(n / 8).push(digit)
    }
}

/// The character for one octal digit.
pub open spec fn oct_digit(d: nat) -> char {
    if d == 0 {
        '0'
    } else if d == 1 {
        '1'
    } else if d == 2 {
        '2'
    } else if d == 3 {
        '3'
    } else if d == 4 {
        '4'
    } else if d == 5 {
        '5'
    } else if d == 6 {
        '6'
    } else {
        '7'
    }
}

/// The permission bits of `mode`, rendered in octal for the elevation helper.
pub fn format_octal(mode: u32) -> (r: String)
    ensures
        r@ == spec_octal(mode as nat),
    decreases mode,
{
    let d = mode % 8;
    let c: char = if d == 0 {
        '0'
    } else if d == 1 {
        '1'
    } else if d == 2 {
        '2'
    } else if d == 3 {
        '3'
    } else if d == 4 {
        '4'
    } else if d == 5 {
        '5'
    } else if d == 6 {
        '6'
    } else {
        '7'
    };
    if mode < 8 {
        let mut r = String::new();
        r.push(c);
        proof {
            assert(r@ =~= spec_octal(mode as nat));
        }
        r
    } else {
        let mut r = format_octal(mode / 8);
        r.push(c);
        r
    }
}

/// The permission bits of a file mode: the low nine bits, as `chmod` reads them.
pub fn permission_bits(mode: u32) -> (r: u32)
    ensures
        r == mode % 0x200,
{
    mode % 0x200
}

/// The elevation helper's program name. Its `-S` flag makes it read the
/// password from its standard input.
pub fn sudo_program() -> (r: String)
    ensures
        r@ == "sudo"@,
{
    String::from_str("sudo")
}

/// The elevation helper's arguments: `-S chmod <mode> <path>`, each its own
/// argument. The password is never among them — it travels on the helper's
/// standard input (see `sudo_stdin_bytes`), so it never shows in the process
/// list.
pub fn sudo_chmod_args(mode: &str, path: &str) -> (r: Vec<String>)
    ensures
        r@.len() == 4,
        r@[0]@ == "-S"@,
        r@[1]@ == "chmod"@,
        r@[2]@ == mode@,
        r@[3]@ == path@,
{
    let mut r: Vec<String> = Vec::new();
    r.push(String::from_str("-S"));
    r.push(String::from_str("chmod"));
    r.push(mode.to_owned());
    r.push(path.to_owned());
    r
}

/// What the caller writes to the elevation helper's standard input: the
/// password, closed by one newline — the only channel the secret travels on.
pub fn sudo_stdin_bytes(password: &str) -> (r: String)
    ensures
        r@ == password@ + "\n"@,
{
    let mut r = password.to_owned();
    r.append("\n");
    r
}

} // verus!

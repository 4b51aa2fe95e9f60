//! The report generator: owner rows sorted by byte total, each with a
//! display name, formatted sizes, and a milli-precision fraction of the
//! grand total, closed by a `*` row for the totals themselves.

use vstd::prelude::*;
use vstd::string::*;
use vstd::seq_lib::{lemma_multiset_commutative, group_to_multiset_ensures};
use crate::stats::{RowData, User, UserTable, UserView, row_of};
use crate::strfmt::{dec_seq, dec_char, size_str, format_size, u64_to_string, u128_to_string};

verus! {

broadcast use group_to_multiset_ensures;

/// Relies on nix::unistd::User::from_uid, which resolves a numeric user
/// id through the system's user database (getpwuid_r).  The outcome
/// depends on that database, so nothing is promised of it.
#[verifier::external_body]
pub fn get_username(uid: u32) -> (r: Result<String, String>) {
    match nix::unistd::User::from_uid(nix::unistd::Uid::from_raw(uid)) {
        Ok(Some(user)) => Ok(user.name),
        Ok(None) => Err(format!("No user database entry for {}", uid)),
        Err(e) => Err(format!("Error retrieving username for {}: {}", uid, e)),
    }
}

/// The display name an owner row uses: the resolved name, or on any
/// resolution failure the numeric id itself.
pub fn owner_display(uid: u32, looked: Result<String, String>) -> (r: String)
    ensures
        (match looked {
            Ok(name) => r@ == name@,
            Err(_) => r@ == dec_seq(uid as nat),
        }),
{
    match looked {
        Ok(name) => name,
        Err(_) => u64_to_string(uid as u64),
    }
}

/// The owner's share of the grand total, in thousandths, rounded
/// half-up; zero when the grand total is zero.
pub open spec fn frac_milli(n: u64, grand: u64) -> int {
    if grand == 0 {
        0
    } else {
        (n as int * 1000 + grand as int / 2) / (grand as int)
    }
}

/// The share rendered to three decimal places.
pub open spec fn frac_str(n: u64, grand: u64) -> Seq<char> {
    let m = frac_milli(n, grand);
    dec_seq((m / 1000) as nat) + seq![
        '.',
        dec_char((m / 100) % 10),
        dec_char((m / 10) % 10),
        dec_char(m % 10),
    ]
}

/// One report row: name, file count, link count, human-readable size,
/// raw bytes and the share of the grand total, tab-separated.
pub open spec fn row_line(name: Seq<char>, r: RowData, grand: u64) -> Seq<char> {
    name + "\t"@ + dec_seq(r.n_files as nat) + "\t"@ + dec_seq(r.n_links as nat) + "\t"@
        + size_str(r.n_bytes) + "\t"@ + dec_seq(r.n_bytes as nat) + "\t"@ + frac_str(
        r.n_bytes,
        grand,
    )
}

/// Renders the share of `n` in `grand` to three decimal places.
pub fn render_frac(n: u64, grand: u64) -> (r: String)
    ensures
        r@ == frac_str(n, grand),
{
    let m: u128 = if grand == 0 {
        0
    } else {
        (n as u128 * 1000 + (grand / 2) as u128) / (grand as u128)
    };
    let mut s = u128_to_string(m / 1000);
    s.append(".");
    let d1 = digit_of(((m / 100) % 10) as u64);
    s.append(d1.as_str());
    let d2 = digit_of(((m / 10) % 10) as u64);
    s.append(d2.as_str());
    let d3 = digit_of((m % 10) as u64);
    s.append(d3.as_str());
    proof {
        reveal_strlit(".");
        assert(s@ =~= frac_str(n, grand));
    }
    s
}

fn digit_of(d: u64) -> (r: String)
    requires
        d < 10,
    ensures
        r@ == seq![dec_char(d as int)],
{
    let s = u64_to_string(d);
    s
}

/// Renders one report row, as [`row_line`] states.
pub fn render_row(name: &str, row: RowData, grand: u64) -> (r: String)
    ensures
        r@ == row_line(name@, row, grand),
{
    let mut s = name.to_owned();
    s.append("\t");
    let files = u64_to_string(row.n_files);
    s.append(files.as_str());
    s.append("\t");
    let links = u64_to_string(row.n_links);
    s.append(links.as_str());
    s.append("\t");
    let size = format_size(row.n_bytes);
    s.append(size.as_str());
    s.append("\t");
    let bytes = u64_to_string(row.n_bytes);
    s.append(bytes.as_str());
    s.append("\t");
    let frac = render_frac(row.n_bytes, grand);
    s.append(frac.as_str());
    proof {
        assert(s@ =~= row_line(name@, row, grand));
    }
    s
}

/// Ascending by byte total.
pub open spec fn sorted_by_bytes(s: Seq<RowData>) -> bool {
    forall|i: int, j: int| 0 <= i < j < s.len() ==> s[i].n_bytes <= s[j].n_bytes
}

/// Sorts the rows ascending by byte total, keeping exactly the given
/// rows.
pub fn sort_rows(rows: &Vec<RowData>) -> (r: Vec<RowData>)
    ensures
        r@.to_multiset() == rows@.to_multiset(),
        sorted_by_bytes(r@),
        r@.len() == rows@.len(),
{
    let mut out: Vec<RowData> = Vec::new();
    let n = rows.len();
    let mut i: usize = 0;
    while i < n
        invariant
            0 <= i <= n,
            n == rows@.len(),
            out@.len() == i,
            sorted_by_bytes(out@),
            out@.to_multiset() == rows@.take(i as int).to_multiset(),
        decreases n - i,
    {
        let x = rows[i];
        let ghost prev = out@;
        let m = out.len();
        let mut pos: usize = 0;
        while pos < m && out[pos].n_bytes <= x.n_bytes
            invariant
                0 <= pos <= m,
                m == out@.len(),
                forall|k: int| 0 <= k < pos ==> out@[k].n_bytes <= x.n_bytes,
            decreases m - pos,
        {
            pos = pos + 1;
        }
        out.insert(pos, x);
        i = i + 1;
        proof {
            assert(out@ == prev.subrange(0, pos as int).push(x) + prev.subrange(
                pos as int,
                prev.len() as int,
            ));
            lemma_multiset_commutative(
                prev.subrange(0, pos as int).push(x),
                prev.subrange(pos as int, prev.len() as int),
            );
            lemma_multiset_commutative(
                prev.subrange(0, pos as int),
                prev.subrange(pos as int, prev.len() as int),
            );
            assert(prev =~= prev.subrange(0, pos as int) + prev.subrange(
                pos as int,
                prev.len() as int,
            ));
            assert(out@.to_multiset() =~= prev.to_multiset().insert(x));
            assert(rows@.take(i as int).drop_last() =~= rows@.take(i as int - 1));
            assert(rows@.take(i as int) =~= rows@.take(i as int - 1).push(x));
            assert(forall|k: int, j: int| 0 <= k < j < out@.len() ==> out@[k].n_bytes
                <= out@[j].n_bytes) by {
                assert(forall|k: int| 0 <= k < out@.len() ==> out@[k] == (if k < pos as int {
                    prev[k]
                } else if k == pos as int {
                    x
                } else {
                    prev[k - 1]
                }));
            }
        }
    }
    proof {
        assert(rows@.take(n as int) =~= rows@);
    }
    out
}

/// Renders one row per entry, pairing `rows[i]` with `names[i]`.
pub fn render_rows_with_names(rows: &Vec<RowData>, names: &Vec<String>, grand: u64) -> (r: Vec<
    String,
>)
    requires
        names@.len() == rows@.len(),
    ensures
        r@.len() == rows@.len(),
        forall|i: int| 0 <= i < r@.len() ==> r@[i]@ == row_line(names@[i]@, rows@[i], grand),
{
    let n = rows.len();
    let mut r: Vec<String> = Vec::new();
    let mut i: usize = 0;
    while i < n
        invariant
            0 <= i <= n,
            n == rows@.len(),
            names@.len() == rows@.len(),
            r@.len() == i,
            forall|k: int| 0 <= k < i ==> r@[k]@ == row_line(names@[k]@, rows@[k], grand),
        decreases n - i,
    {
        let line = render_row(names[i].as_str(), rows[i], grand);
        r.push(line);
        i = i + 1;
    }
    r
}

/// What a rendered line may look like when its name column came from
/// the user database: some name, the rest of the row exact.
pub open spec fn line_for_row(line: Seq<char>, row: RowData, grand: u64) -> bool {
    exists|name: Seq<char>| line == #[trigger] row_line(name, row, grand)
}

/// `b` is `a` sorted ascending by byte total.
pub open spec fn is_sorted_of(a: Seq<RowData>, b: Seq<RowData>) -> bool {
    b.to_multiset() == a.to_multiset() && sorted_by_bytes(b) && b.len() == a.len()
}

/// The rows a table denotes, in insertion order.
pub open spec fn rows_data(s: Seq<(u32, UserView)>) -> Seq<RowData> {
    s.map_values(|p: (u32, UserView)| row_of(p))
}

/// The report's fixed header row.
pub fn header_line() -> (r: String)
    ensures
        r@ == "User\tNFiles\tNLinks\tSize\tBytes\tFrac"@,
{
    String::from_str("User\tNFiles\tNLinks\tSize\tBytes\tFrac")
}

/// Builds the whole report: the header, one row per owner sorted
/// ascending by byte total (name resolved through the user database,
/// falling back to the numeric id), and a closing `*` row carrying the
/// grand totals.
pub fn render_report(users: &UserTable, total: &User) -> (r: Vec<String>)
    ensures
        r@.len() == users.rows().len() + 2,
        r@[0]@ == "User\tNFiles\tNLinks\tSize\tBytes\tFrac"@,
        r@[r@.len() - 1]@ == row_line(
            "*"@,
            (RowData { uid: 0, n_files: total.n_files, n_links: total.n_links, n_bytes: total.n_bytes }),
            total.n_bytes,
        ),
        exists|srt: Seq<RowData>|
            #[trigger] is_sorted_of(rows_data(users.rows()), srt) && forall|i: int|
                0 <= i < srt.len() ==> line_for_row(r@[i + 1]@, srt[i], total.n_bytes),
{
    let rows = users.user_rows();
    proof {
        assert(rows@ =~= rows_data(users.rows()));
    }
    let sorted = sort_rows(&rows);
    let n = sorted.len();
    let mut names: Vec<String> = Vec::new();
    let mut i: usize = 0;
    while i < n
        invariant
            0 <= i <= n,
            n == sorted@.len(),
            names@.len() == i,
        decreases n - i,
    {
        let looked = get_username(sorted[i].uid);
        names.push(owner_display(sorted[i].uid, looked));
        i = i + 1;
    }
    let mut body = render_rows_with_names(&sorted, &names, total.n_bytes);
    let mut r: Vec<String> = Vec::new();
    r.push(header_line());
    r.append(&mut body);
    let star = render_row(
        "*",
        RowData { uid: 0, n_files: total.n_files, n_links: total.n_links, n_bytes: total.n_bytes },
        total.n_bytes,
    );
    r.push(star);
    proof {
        assert forall|i2: int| 0 <= i2 < sorted@.len() implies line_for_row(
            r@[i2 + 1]@,
            sorted@[i2],
            total.n_bytes,
        ) by {
            assert(r@[i2 + 1]@ == row_line(names@[i2]@, sorted@[i2], total.n_bytes));
        }
        assert(is_sorted_of(rows_data(users.rows()), sorted@) && forall|i2: int|
            0 <= i2 < sorted@.len() ==> line_for_row(r@[i2 + 1]@, sorted@[i2], total.n_bytes));
    }
    r
}

} // verus!

//! The progress reporter: a per-entry tick counter that periodically
//! yields a one-line status, and a closing summary line.  Purely
//! observational; it never touches the aggregated statistics.

use vstd::prelude::*;
use vstd::string::*;
use crate::wrap::{add64, wrap_add};
use crate::strfmt::{dec_seq, size_str, format_size, u64_to_string};

verus! {

/// Running totals: entries ticked and bytes counted so far.
pub struct Counter {
    pub count: u64,
    pub total: u64,
}

/// `k` spaces.
pub open spec fn spaces(k: nat) -> Seq<char> {
    Seq::new(k, |i: int| ' ')
}

/// `p` truncated to its first 78 characters, padded right with spaces
/// to 78 columns.
pub open spec fn pad78(p: Seq<char>) -> Seq<char> {
    if p.len() >= 78 {
        p.take(78)
    } else {
        p + spaces((78 - p.len()) as nat)
    }
}

/// The status line emitted every 10,000th entry: carriage return,
/// running counts, then the head of the current path in a fixed column.
pub open spec fn progress_line(count: u64, total: u64, path: Seq<char>) -> Seq<char> {
    seq!['\r'] + dec_seq(count as nat) + " files, "@ + size_str(total) + ": "@ + pad78(path)
        + ".."@
}

/// The closing summary line, blanking any leftover column noise.
pub open spec fn summary_line(count: u64, total: u64) -> Seq<char> {
    seq!['\r'] + dec_seq(count as nat) + " files, "@ + size_str(total) + "  "@ + spaces(80)
}

fn append_spaces(s: &mut String, from: usize, to: usize)
    requires
        from <= to,
    ensures
        final(s)@ == old(s)@ + spaces((to - from) as nat),
{
    let ghost base = s@;
    let mut k: usize = from;
    proof {
        reveal_strlit(" ");
        assert(s@ =~= base + spaces(0));
    }
    while k < to
        invariant
            from <= k <= to,
            s@ == base + spaces((k - from) as nat),
        decreases to - k,
    {
        s.append(" ");
        k = k + 1;
        proof {
            reveal_strlit(" ");
            assert(" "@ =~= seq![' ']);
            assert(spaces((k - from) as nat) =~= spaces((k - 1 - from) as nat) + seq![' ']);
            assert(s@ =~= base + spaces((k - from) as nat));
        }
    }
}

impl Counter {
    /// A fresh counter with nothing seen.
    pub fn new() -> (r: Counter)
        ensures
            r.count == 0,
            r.total == 0,
    {
        Counter { count: 0, total: 0 }
    }

    /// Ticks one visited entry of `size` counted bytes (wrapping on
    /// 64-bit overflow) and yields the status line exactly on every
    /// 10,000th tick.
    pub fn inc(&mut self, path: &str, size: u64) -> (r: Option<String>)
        ensures
            final(self).count == add64(old(self).count, 1),
            final(self).total == add64(old(self).total, size),
            (match r {
                Some(line) => final(self).count % 10000 == 0 && line@ == progress_line(
                    final(self).count,
                    final(self).total,
                    path@,
                ),
                None => final(self).count % 10000 != 0,
            }),
    {
        self.count = wrap_add(self.count, 1);
        self.total = wrap_add(self.total, size);
        if self.count % 10000 == 0 {
            Some(self.render_progress(path))
        } else {
            None
        }
    }

    /// Builds the status line for the current totals and `path`.
    pub fn render_progress(&self, path: &str) -> (r: String)
        ensures
            r@ == progress_line(self.count, self.total, path@),
    {
        let mut s = String::new();
        s.append("\r");
        let cnt = u64_to_string(self.count);
        s.append(cnt.as_str());
        s.append(" files, ");
        let sz = format_size(self.total);
        s.append(sz.as_str());
        s.append(": ");
        let ghost base = s@;
        let plen = path.unicode_len();
        let head: &str = if plen > 78 {
            path.substring_char(0, 78)
        } else {
            path
        };
        s.append(head);
        let k0: usize = if plen > 78 {
            78
        } else {
            plen
        };
        append_spaces(&mut s, k0, 78);
        proof {
            assert(s@ =~= base + pad78(path@));
        }
        s.append("..");
        proof {
            reveal_strlit("\r");
            assert("\r"@ =~= seq!['\r']);
            assert(s@ =~= progress_line(self.count, self.total, path@));
        }
        s
    }

    /// Builds the closing summary line.
    pub fn finalize(&self) -> (r: String)
        ensures
            r@ == summary_line(self.count, self.total),
    {
        let mut s = String::new();
        s.append("\r");
        let cnt = u64_to_string(self.count);
        s.append(cnt.as_str());
        s.append(" files, ");
        let sz = format_size(self.total);
        s.append(sz.as_str());
        s.append("  ");
        append_spaces(&mut s, 0, 80);
        proof {
            reveal_strlit("\r");
            assert("\r"@ =~= seq!['\r']);
            assert(s@ =~= summary_line(self.count, self.total));
        }
        s
    }
}

} // verus!

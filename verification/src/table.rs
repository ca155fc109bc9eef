//! Plain-text tables with aligned columns, as printed by the interactive
//! backup chooser.

use vstd::prelude::*;

use crate::text::{char_repeat, push_char, push_repeat};

verus! {

/// A table whose column widths adapt to the widest cell.  A heading that
/// starts with an underscore right-aligns its column.
#[derive(Debug)]
pub struct Table {
    pub headers: Vec<String>,
    pub pad_left: Vec<bool>,
    pub items: Vec<Vec<String>>,
}

pub open spec fn max2(a: nat, b: nat) -> nat {
    if a >= b { a } else { b }
}

/// A cell padded with spaces to width `w`, on the left or on the right.
pub open spec fn spec_padded(sv: Seq<char>, w: nat, left: bool) -> Seq<char> {
    if sv.len() >= w {
        sv
    } else if left {
        char_repeat(' ', (w - sv.len()) as nat) + sv
    } else {
        sv + char_repeat(' ', (w - sv.len()) as nat)
    }
}

/// The first `k` cells of a row, padded to their column widths and joined
/// with ` | `.
pub open spec fn spec_measured_cells(
    row: Seq<Seq<char>>,
    ms: Seq<usize>,
    ps: Seq<bool>,
    k: nat,
) -> Seq<char>
    decreases k,
{
    if k == 0 {
        Seq::empty()
    } else if k == 1 {
        spec_padded(row[0], ms[0] as nat, ps[0])
    } else {
        spec_measured_cells(row, ms, ps, (k - 1) as nat) + " | "@ + spec_padded(
            row[k - 1],
            ms[k - 1] as nat,
            ps[k - 1],
        )
    }
}

impl Table {
    pub open spec fn wf(&self) -> bool {
        &&& self.pad_left@.len() == self.headers@.len()
        &&& forall|r: int|
            0 <= r < self.items@.len() ==> (#[trigger] self.items@[r])@.len()
                == self.headers@.len()
    }

    /// Builds a table from its headings.  A leading underscore is stripped
    /// and marks the column as right-aligned.
    pub fn new(headers: &Vec<String>) -> (r: Table)
        requires
            forall|i: int| 0 <= i < headers@.len() ==> (#[trigger] headers@[i])@.len() > 0,
        ensures
            r.wf(),
            r.items@.len() == 0,
            r.headers@.len() == headers@.len(),
            forall|i: int|
                0 <= i < headers@.len() ==> {
                    let h = (#[trigger] headers@[i])@;
                    if h[0] == '_' {
                        r.pad_left@[i] && r.headers@[i]@ == h.skip(1)
                    } else {
                        !r.pad_left@[i] && r.headers@[i]@ == h
                    }
                },
    {
        let n = headers.len();
        let mut hs: Vec<String> = Vec::new();
        let mut ps: Vec<bool> = Vec::new();
        let mut i: usize = 0;
        while i < n
            invariant
                n == headers@.len(),
                i <= n,
                hs@.len() == i,
                ps@.len() == i,
                forall|k: int| 0 <= k < n ==> (#[trigger] headers@[k])@.len() > 0,
                forall|k: int|
                    0 <= k < i ==> {
                        let h = (#[trigger] headers@[k])@;
                        if h[0] == '_' {
                            ps@[k] && hs@[k]@ == h.skip(1)
                        } else {
                            !ps@[k] && hs@[k]@ == h
                        }
                    },
            decreases n - i,
        {
            let h = &headers[i];
            let hlen = h.as_str().unicode_len();
            if h.as_str().get_char(0) == '_' {
                let rest = h.as_str().substring_char(1, hlen).to_owned();
                proof {
                    assert(rest@ =~= headers@[i as int]@.skip(1));
                }
                ps.push(true);
                hs.push(rest);
            } else {
                ps.push(false);
                hs.push(h.clone());
            }
            i = i + 1;
        }
        Table { headers: hs, pad_left: ps, items: Vec::new() }
    }

    /// Appends one row; it must have one cell per column.
    pub fn push(&mut self, row: Vec<String>)
        requires
            old(self).wf(),
            row@.len() == old(self).headers@.len(),
        ensures
            final(self).wf(),
            final(self).headers == old(self).headers,
            final(self).pad_left == old(self).pad_left,
            final(self).items@ == old(self).items@.push(row),
    {
        self.items.push(row);
    }
}

/// Widens each tracked column width to hold the matching cell of `row`.
pub fn measure(measures: &mut Vec<usize>, row: &Vec<String>)
    requires
        old(measures)@.len() <= row@.len(),
    ensures
        final(measures)@.len() == old(measures)@.len(),
        forall|i: int|
            0 <= i < old(measures)@.len() ==> #[trigger] final(measures)@[i] == max2(
                old(measures)@[i] as nat,
                row@[i]@.len(),
            ),
{
    let n = measures.len();
    let mut i: usize = 0;
    while i < n
        invariant
            n == measures@.len(),
            n <= row@.len(),
            i <= n,
            forall|k: int| i <= k < n ==> #[trigger] measures@[k] == old(measures)@[k],
            forall|k: int|
                0 <= k < i ==> #[trigger] measures@[k] == max2(
                    old(measures)@[k] as nat,
                    row@[k]@.len(),
                ),
        decreases n - i,
    {
        let cl = row[i].as_str().unicode_len();
        if cl > measures[i] {
            measures[i] = cl;
        }
        i = i + 1;
    }
}

/// Appends the cells of `row`, each padded to its column width, separated
/// by ` | `.
pub fn write_measured(out: &mut String, row: &Vec<String>, measures: &Vec<usize>, pad_left: &Vec<
    bool,
>)
    requires
        measures@.len() <= row@.len(),
        measures@.len() <= pad_left@.len(),
    ensures
        final(out)@ == old(out)@ + spec_measured_cells(
            row.deep_view(),
            measures@,
            pad_left@,
            measures@.len(),
        ),
{
    let n = measures.len();
    let mut i: usize = 0;
    while i < n
        invariant
            n == measures@.len(),
            n <= row@.len(),
            n <= pad_left@.len(),
            i <= n,
            out@ == old(out)@ + spec_measured_cells(
                row.deep_view(),
                measures@,
                pad_left@,
                i as nat,
            ),
        decreases n - i,
    {
        proof {
            assert(row.deep_view()[i as int] == row@[i as int]@);
        }
        if i > 0 {
            out.append(" | ");
        }
        let cl = row[i].as_str().unicode_len();
        let w = measures[i];
        if pad_left[i] {
            if cl < w {
                push_repeat(out, ' ', w - cl);
            }
            out.append(row[i].as_str());
        } else {
            out.append(row[i].as_str());
            if cl < w {
                push_repeat(out, ' ', w - cl);
            }
        }
        proof {
            assert(out@ =~= old(out)@ + spec_measured_cells(
                row.deep_view(),
                measures@,
                pad_left@,
                (i + 1) as nat,
            ));
        }
        i = i + 1;
    }
}

} // verus!

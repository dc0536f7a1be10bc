//! Weighted frequency tables: labels with integer occurrence counts, parsed
//! from comma-separated text and drawn from at random in proportion to the
//! counts.

use vstd::prelude::*;
use crate::rng;
use crate::text::{
    digits_part, is_u32_text, spec_digits_val, spec_split, split_chars, try_parse_u32,
    lemma_digits_val_nonneg,
};

verus! {

/// One label of a frequency table and how often it occurs.
#[derive(Debug, Clone)]
pub struct StringOccurrencesEntry {
    pub entry: String,
    pub occurrences: u32,
}

/// A frequency table: entries with their occurrence counts, and the total
/// count kept alongside for drawing.
#[derive(Debug, Clone)]
pub struct StringOccurrences {
    pub total_occurrences: u32,
    pub entries: Vec<StringOccurrencesEntry>,
}

/// The entries as pairs of label text and count.
pub open spec fn rows_of(s: Seq<StringOccurrencesEntry>) -> Seq<(Seq<char>, int)> {
    s.map_values(|e: StringOccurrencesEntry| (e.entry@, e.occurrences as int))
}

/// The sum of the counts of a row sequence.
pub open spec fn spec_occ_sum(rows: Seq<(Seq<char>, int)>) -> int
    decreases rows.len(),
{
    if rows.len() == 0 {
        0
    } else {
        spec_occ_sum(rows.drop_last()) + rows.last().1
    }
}

/// The rows a sequence of text lines yields: one row per line holding at
/// least two comma-separated fields, pairing the first field with the
/// numeric value of the second; other lines are passed over.
pub open spec fn spec_table_rows(lines: Seq<Seq<char>>) -> Seq<(Seq<char>, int)>
    decreases lines.len(),
{
    if lines.len() == 0 {
        Seq::<(Seq<char>, int)>::empty()
    } else {
        let init = spec_table_rows(lines.drop_last());
        let fs = spec_split(lines.last(), ',');
        if fs.len() >= 2 {
            init.push((fs[0], spec_digits_val(digits_part(fs[1]))))
        } else {
            init
        }
    }
}

/// Every line that yields a row has a well-formed `u32` count field.
pub open spec fn spec_rows_ok(lines: Seq<Seq<char>>) -> bool {
    forall|k: int|
        0 <= k < lines.len() ==> (spec_split(lines[k], ',').len() >= 2 ==> is_u32_text(
            spec_split(lines[k], ',')[1],
        ))
}

/// What text a table can be read from: well-formed count fields, with a
/// total that fits in a `u32`.
pub open spec fn table_text_ok(s: Seq<char>) -> bool {
    &&& spec_rows_ok(spec_split(s, '\n'))
    &&& spec_occ_sum(spec_table_rows(spec_split(s, '\n'))) <= u32::MAX
}

pub proof fn lemma_table_rows_nonneg(lines: Seq<Seq<char>>)
    requires
        spec_rows_ok(lines),
    ensures
        forall|k: int|
            0 <= k < spec_table_rows(lines).len() ==> #[trigger] spec_table_rows(lines)[k].1 >= 0,
    decreases lines.len(),
{
    if lines.len() > 0 {
        assert(spec_rows_ok(lines.drop_last()));
        lemma_table_rows_nonneg(lines.drop_last());
        let fs = spec_split(lines.last(), ',');
        let r0 = spec_table_rows(lines.drop_last());
        let r1 = spec_table_rows(lines);
        if fs.len() >= 2 {
            lemma_digits_val_nonneg(digits_part(fs[1]));
            assert forall|k: int| 0 <= k < r1.len() implies #[trigger] r1[k].1 >= 0 by {
                if k < r0.len() {
                    assert(r1[k] == r0[k]);
                }
            }
        }
    }
}

/// A prefix of nonnegative rows never sums to more than the whole.
pub proof fn lemma_occ_sum_prefix(rows: Seq<(Seq<char>, int)>, j: int)
    requires
        0 <= j <= rows.len(),
        forall|k: int| 0 <= k < rows.len() ==> #[trigger] rows[k].1 >= 0,
    ensures
        spec_occ_sum(rows.take(j)) <= spec_occ_sum(rows),
    decreases rows.len(),
{
    if j == rows.len() {
        assert(rows.take(j) =~= rows);
    } else {
        assert(rows.take(j) =~= rows.drop_last().take(j));
        lemma_occ_sum_prefix(rows.drop_last(), j);
    }
}

/// Rows of a line prefix are a prefix of the rows of all lines.
pub proof fn lemma_table_rows_prefix(lines: Seq<Seq<char>>, j: int)
    requires
        0 <= j <= lines.len(),
    ensures
        spec_table_rows(lines.take(j)) == spec_table_rows(lines).take(
            spec_table_rows(lines.take(j)).len() as int,
        ),
        spec_table_rows(lines.take(j)).len() <= spec_table_rows(lines).len(),
    decreases lines.len(),
{
    if j == lines.len() {
        assert(lines.take(j) =~= lines);
        assert(spec_table_rows(lines.take(j)) =~= spec_table_rows(lines).take(
            spec_table_rows(lines.take(j)).len() as int,
        ));
    } else {
        assert(lines.take(j) =~= lines.drop_last().take(j));
        lemma_table_rows_prefix(lines.drop_last(), j);
        let fs = spec_split(lines.last(), ',');
        let rj = spec_table_rows(lines.take(j));
        if fs.len() >= 2 {
            assert(spec_table_rows(lines).drop_last() == spec_table_rows(lines.drop_last()));
            assert(rj =~= spec_table_rows(lines).take(rj.len() as int));
        } else {
            assert(spec_table_rows(lines) == spec_table_rows(lines.drop_last()));
        }
    }
}

impl StringOccurrences {
    /// The invariant a parsed table keeps: the stored total is the sum of
    /// the entries' counts.
    pub open spec fn wf(self) -> bool {
        self.total_occurrences as int == spec_occ_sum(rows_of(self.entries@))
    }

    /// `t` is the text of one of the table's entries.
    pub open spec fn has_entry(self, t: Seq<char>) -> bool {
        exists|i: int| 0 <= i < self.entries@.len() && self.entries@[i].entry@ == t
    }

    /// All entry texts are at most `n` characters long.
    pub open spec fn entries_at_most(self, n: int) -> bool {
        forall|i: int| 0 <= i < self.entries@.len() ==> #[trigger] self.entries@[i].entry@.len() <= n
    }

    /// Read a table from comma-separated text: one entry per line holding a
    /// label and a count, lines without both fields passed over.  Returns
    /// `None` exactly when some count field is not a `u32` or the counts sum
    /// beyond `u32::MAX`; such text is refused before any run starts.
    pub fn from_str(data: &str) -> (r: Option<StringOccurrences>)
        ensures
            r is Some <==> table_text_ok(data@),
            r is Some ==> r->0.wf(),
            r is Some ==> rows_of(r->0.entries@) == spec_table_rows(spec_split(data@, '\n')),
            r is Some ==> r->0.total_occurrences as int == spec_occ_sum(
                spec_table_rows(spec_split(data@, '\n')),
            ),
    {
        let lines = split_chars(data, '\n');
        let ghost lviews = spec_split(data@, '\n');
        let mut entries: Vec<StringOccurrencesEntry> = Vec::new();
        let mut total: u64 = 0;
        let mut k: usize = 0;
        proof {
            assert(lviews.take(0) =~= Seq::<Seq<char>>::empty());
            assert(rows_of(entries@) =~= spec_table_rows(lviews.take(0)));
        }
        while k < lines.len()
            invariant
                k <= lines@.len(),
                crate::text::views_of(lines@) == lviews,
                lviews == spec_split(data@, '\n'),
                spec_rows_ok(lviews.take(k as int)),
                rows_of(entries@) =~= spec_table_rows(lviews.take(k as int)),
                total as int == spec_occ_sum(rows_of(entries@)),
                total <= u32::MAX,
            decreases lines@.len() - k,
        {
            proof {
                assert(lviews.take(k + 1).drop_last() =~= lviews.take(k as int));
                assert(lines@[k as int]@ == lviews[k as int]);
            }
            let fields = split_chars(lines[k].as_str(), ',');
            if fields.len() >= 2 {
                match try_parse_u32(fields[1].as_str()) {
                    None => {
                        proof {
                            assert(!is_u32_text(spec_split(lviews[k as int], ',')[1]));
                            assert(!spec_rows_ok(lviews));
                        }
                        return None;
                    },
                    Some(occ) => {
                        let ghost prev = rows_of(entries@);
                        let ghost row = (spec_split(lviews[k as int], ',')[0], occ as int);
                        proof {
                            assert(spec_table_rows(lviews.take(k + 1)) == prev.push(row));
                            assert(prev.push(row).drop_last() =~= prev);
                            assert(spec_occ_sum(prev.push(row)) == spec_occ_sum(prev)
                                + occ as int);
                        }
                        total = total + occ as u64;
                        if total > 0xffff_ffff {
                            proof {
                                let j = k + 1;
                                assert(spec_rows_ok(lviews.take(j)));
                                if spec_rows_ok(lviews) {
                                    lemma_table_rows_nonneg(lviews);
                                    lemma_table_rows_prefix(lviews, j);
                                    let pre = spec_table_rows(lviews.take(j));
                                    assert(spec_occ_sum(pre) == total as int);
                                    assert(pre == spec_table_rows(lviews).take(pre.len() as int));
                                    lemma_occ_sum_prefix(
                                        spec_table_rows(lviews),
                                        pre.len() as int,
                                    );
                                    assert(spec_occ_sum(spec_table_rows(lviews)) > u32::MAX);
                                }
                                assert(!table_text_ok(data@));
                            }
                            return None;
                        }
                        let label = fields[0].clone();
                        entries.push(StringOccurrencesEntry { entry: label, occurrences: occ });
                        proof {
                            assert(rows_of(entries@) =~= prev.push(row));
                            assert(total as int == spec_occ_sum(rows_of(entries@)));
                        }
                    },
                }
            }
            proof {
                assert(spec_rows_ok(lviews.take(k + 1)));
            }
            k += 1;
        }
        proof {
            assert(lviews.take(lines@.len() as int) =~= lviews);
        }
        Some(StringOccurrences { total_occurrences: total as u32, entries })
    }

    /// Draw one label, weighted by the occurrence counts: walk the entries
    /// adding counts until the running sum passes the drawn value.  The
    /// result is always one of the table's labels, and a label whose count
    /// is zero is never drawn.
    pub fn get_random_entry(&self, generator: &mut rand::rngs::StdRng) -> (r: String)
        requires
            self.wf(),
            self.total_occurrences > 0,
        ensures
            self.has_entry(r@),
            exists|i: int|
                0 <= i < self.entries@.len() && self.entries@[i].entry@ == r@
                    && #[trigger] self.entries@[i].occurrences > 0,
    {
        let value = rng::draw_u32(generator) % self.total_occurrences;
        let mut counter: u32 = 0;
        let mut i: usize = 0;
        proof {
            assert(rows_of(self.entries@).take(0) =~= Seq::<(Seq<char>, int)>::empty());
        }
        while i < self.entries.len()
            invariant
                i <= self.entries@.len(),
                self.wf(),
                value < self.total_occurrences,
                counter as int == spec_occ_sum(rows_of(self.entries@).take(i as int)),
                counter <= value,
            decreases self.entries@.len() - i,
        {
            proof {
                assert(rows_of(self.entries@).take(i + 1).drop_last() =~= rows_of(
                    self.entries@,
                ).take(i as int));
                lemma_occ_sum_prefix(rows_of(self.entries@), i + 1);
            }
            let next = counter + self.entries[i].occurrences;
            if value < next {
                proof {
                    assert(self.entries@[i as int].occurrences > 0);
                }
                return self.entries[i].entry.clone();
            }
            counter = next;
            i += 1;
        }
        proof {
            assert(rows_of(self.entries@).take(self.entries@.len() as int) =~= rows_of(
                self.entries@,
            ));
            assert(false);
        }
        unreached()
    }
}

} // verus!

//! CSV row handling for dataset uploads: quoted-field splitting, label
//! column selection, class-index validation and one-hot layout.
//!
//! Turning feature cells into numbers is the numeric engine's step; what
//! is verified here is the row's shape: how a line splits into cells,
//! which cells are features and which the label, and that a class index
//! names an existing class.

use vstd::prelude::*;

use crate::text::{chars_to_string, digits_val, parse_usize, str_to_chars, string_views,
    unsigned_body, all_digits};

verus! {

/// How the label columns of a CSV row are to be read.
#[derive(Debug, Clone, Copy, PartialEq, Eq, Structural)]
pub enum LabelMode {
    /// The last column is an integer class index, one-hot encoded to
    /// `n_classes` entries.
    ClassIndex { n_classes: usize },
    /// The last `n_label_cols` columns are the label vector.
    OneHot { n_label_cols: usize },
}

/// A CSV rejection, carrying the message shown to the uploader.
#[derive(Debug, Clone)]
pub struct CsvParseError(pub String);

/// The cells a CSV line splits into, scanning with a quoting flag and
/// the cell collected so far: a quote toggles quoting, a doubled quote
/// inside quotes writes one quote, and a comma outside quotes ends the
/// cell.
pub open spec fn csv_split(s: Seq<char>, in_quotes: bool, current: Seq<char>) -> Seq<Seq<char>>
    decreases s.len(),
{
    if s.len() == 0 {
        seq![current]
    } else if s[0] == '"' {
        if in_quotes && s.len() >= 2 && s[1] == '"' {
            csv_split(s.skip(2), true, current.push('"'))
        } else {
            csv_split(s.skip(1), !in_quotes, current)
        }
    } else if s[0] == ',' && !in_quotes {
        seq![current] + csv_split(s.skip(1), false, Seq::empty())
    } else {
        csv_split(s.skip(1), in_quotes, current.push(s[0]))
    }
}

/// The cells of one CSV line.
pub open spec fn csv_row_spec(s: Seq<char>) -> Seq<Seq<char>> {
    csv_split(s, false, Seq::empty())
}

/// Parses a single CSV row into its cells, handling double-quoted
/// fields with embedded commas and doubled quotes.
pub fn parse_csv_row(line: &str) -> (r: Vec<String>)
    ensures
        string_views(r@) == csv_row_spec(line@),
{
    let cs = str_to_chars(line);
    let n = cs.len();
    let mut fields: Vec<String> = Vec::new();
    let mut current: Vec<char> = Vec::new();
    let mut in_quotes = false;
    let mut i: usize = 0;
    proof {
        assert(line@.skip(0) =~= line@);
        assert(string_views(fields@) =~= Seq::<Seq<char>>::empty());
        assert(Seq::<Seq<char>>::empty() + csv_split(line@, false, current@) =~= csv_split(
            line@,
            false,
            current@,
        ));
    }
    while i < n
        invariant
            n == cs@.len(),
            cs@ == line@,
            i <= n,
            csv_row_spec(line@) == string_views(fields@) + csv_split(
                line@.skip(i as int),
                in_quotes,
                current@,
            ),
        decreases n - i,
    {
        let ghost rest = line@.skip(i as int);
        let ghost old_fields = string_views(fields@);
        let c = cs[i];
        if c == '"' {
            if in_quotes && i + 1 < n && cs[i + 1] == '"' {
                current.push('"');
                proof {
                    assert(rest[1] == line@[i as int + 1]);
                    assert(rest.skip(2) =~= line@.skip(i as int + 2));
                }
                i += 2;
            } else {
                in_quotes = !in_quotes;
                proof {
                    assert(rest.skip(1) =~= line@.skip(i as int + 1));
                }
                i += 1;
            }
        } else if c == ',' && !in_quotes {
            let done = chars_to_string(&current);
            fields.push(done);
            current = Vec::new();
            proof {
                assert(string_views(fields@) =~= old_fields + seq![done@]);
                assert(rest.skip(1) =~= line@.skip(i as int + 1));
            }
            i += 1;
        } else {
            current.push(c);
            proof {
                assert(rest.skip(1) =~= line@.skip(i as int + 1));
            }
            i += 1;
        }
    }
    let done = chars_to_string(&current);
    fields.push(done);
    proof {
        assert(line@.skip(n as int) =~= Seq::<char>::empty());
        assert(string_views(fields@) =~= string_views(fields@.drop_last()) + seq![done@]);
    }
    fields
}

/// Why a row's cells cannot be split into features and label.
#[derive(Debug, Clone, Copy, PartialEq, Eq, Structural)]
pub enum RowShapeError {
    /// A class-index row needs at least a feature and the index.
    TooFewColumnsForClassIndex,
    /// A one-hot row needs at least one feature beside its label cells.
    TooFewColumnsForOneHot,
}

/// Where a row of `n_cells` cells splits into features and label: the
/// cells before the returned index are features, the rest the label.
pub fn row_split_point(n_cells: usize, label_mode: LabelMode) -> (r: Result<usize, RowShapeError>)
    ensures
        match label_mode {
            LabelMode::ClassIndex { n_classes } => if n_cells >= 2 {
                r == Result::<usize, RowShapeError>::Ok((n_cells - 1) as usize)
            } else {
                r == Result::<usize, RowShapeError>::Err(RowShapeError::TooFewColumnsForClassIndex)
            },
            LabelMode::OneHot { n_label_cols } => if n_cells >= n_label_cols + 1 {
                r == Result::<usize, RowShapeError>::Ok((n_cells - n_label_cols) as usize)
            } else {
                r == Result::<usize, RowShapeError>::Err(RowShapeError::TooFewColumnsForOneHot)
            },
        },
{
    match label_mode {
        LabelMode::ClassIndex { n_classes: _ } => {
            if n_cells >= 2 {
                Ok(n_cells - 1)
            } else {
                Err(RowShapeError::TooFewColumnsForClassIndex)
            }
        },
        LabelMode::OneHot { n_label_cols } => {
            if n_cells >= 1 && n_cells - 1 >= n_label_cols {
                Ok(n_cells - n_label_cols)
            } else {
                Err(RowShapeError::TooFewColumnsForOneHot)
            }
        },
    }
}

/// Why a class-index cell is rejected.
#[derive(Debug, Clone, Copy, PartialEq, Eq, Structural)]
pub enum ClassIndexError {
    /// The cell is not a non-negative integer.
    NotAnInteger,
    /// The index does not name one of the `n_classes` classes.
    OutOfRange,
}

/// Parses a class-index cell: a non-negative integer below `n_classes`.
/// The cell must already be trimmed.
pub fn parse_class_index(cell: &str, n_classes: usize) -> (r: Result<usize, ClassIndexError>)
    ensures
        ({
            let b = unsigned_body(cell@);
            match r {
                Ok(v) => b.len() > 0 && all_digits(b) && v == digits_val(b) && v < n_classes,
                Err(ClassIndexError::NotAnInteger) => b.len() == 0 || !all_digits(b)
                    || digits_val(b) > usize::MAX,
                Err(ClassIndexError::OutOfRange) => b.len() > 0 && all_digits(b) && digits_val(
                    b,
                ) <= usize::MAX && digits_val(b) >= n_classes,
            }
        }),
{
    match parse_usize(cell) {
        Some(v) => {
            if v < n_classes {
                Ok(v)
            } else {
                Err(ClassIndexError::OutOfRange)
            }
        },
        None => Err(ClassIndexError::NotAnInteger),
    }
}

/// The one-hot layout for `class` among `n_classes`: true exactly at
/// the class's position.
pub fn one_hot_flags(n_classes: usize, class: usize) -> (r: Vec<bool>)
    requires
        class < n_classes,
    ensures
        r@.len() == n_classes,
        forall|i: int| 0 <= i < n_classes ==> ((#[trigger] r@[i]) <==> i == class),
{
    let mut r: Vec<bool> = Vec::new();
    let mut i: usize = 0;
    while i < n_classes
        invariant
            i <= n_classes,
            r@.len() == i,
            forall|j: int| 0 <= j < i ==> ((#[trigger] r@[j]) <==> j == class),
        decreases n_classes - i,
    {
        r.push(i == class);
        i += 1;
    }
    r
}

/// The first row whose width differs from the first row's, if any.
pub fn first_width_mismatch(widths: &Vec<usize>) -> (r: Option<usize>)
    ensures
        match r {
            Some(i) => 0 < i < widths@.len() && widths@[i as int] != widths@[0] && (forall|j: int|
                0 <= j < i ==> (#[trigger] widths@[j]) == widths@[0]),
            None => forall|j: int| 0 <= j < widths@.len() ==> (#[trigger] widths@[j]) == widths@[0],
        },
{
    let n = widths.len();
    if n == 0 {
        return None;
    }
    let w0 = widths[0];
    let mut i: usize = 1;
    while i < n
        invariant
            n == widths@.len(),
            n > 0,
            w0 == widths@[0],
            1 <= i <= n,
            forall|j: int| 0 <= j < i ==> (#[trigger] widths@[j]) == widths@[0],
        decreases n - i,
    {
        if widths[i] != w0 {
            return Some(i);
        }
        i += 1;
    }
    None
}

} // verus!

//! Rows of a recorded orientation log.

use crate::quat::Quat64;
use vstd::prelude::*;

verus! {

/// Column of the frame number.
pub const FRAME: usize = 0;

/// Column of the timestamp, in milliseconds.
pub const TIMESTAMP_MS: usize = 1;

/// Columns of the orientation before stabilization, w first.
pub const ORG_QUAT_W: usize = 11;

pub const ORG_QUAT_X: usize = 12;

pub const ORG_QUAT_Y: usize = 13;

pub const ORG_QUAT_Z: usize = 14;

/// Columns of the stabilized orientation, w first.
pub const STAB_QUAT_W: usize = 19;

pub const STAB_QUAT_X: usize = 20;

pub const STAB_QUAT_Y: usize = 21;

pub const STAB_QUAT_Z: usize = 22;

/// The number of columns of every row.
pub const NUM_COLS: usize = 26;

/// Why a row of a log is refused.
#[derive(Clone, Copy, Debug, PartialEq, Eq, Structural)]
pub enum CsvQuatError {
    /// The row on line `line` of the file has `got` columns in place of
    /// `expected`.
    ColumnCount { line: usize, expected: usize, got: usize },
}

/// The line of the file on which the data row number `row` stands, counting
/// rows from 0 and lines from 1, with the header on the first line.
pub open spec fn line_of_row(row: int) -> int {
    row + 2
}

/// The columns (w, x, y, z) of the orientation to load: the stabilized one if
/// `stabbed`, else the one before stabilization.
pub fn quat_columns(stabbed: bool) -> (r: (usize, usize, usize, usize))
    ensures
        r == if stabbed {
            (STAB_QUAT_W, STAB_QUAT_X, STAB_QUAT_Y, STAB_QUAT_Z)
        } else {
            (ORG_QUAT_W, ORG_QUAT_X, ORG_QUAT_Y, ORG_QUAT_Z)
        },
{
    if stabbed {
        (STAB_QUAT_W, STAB_QUAT_X, STAB_QUAT_Y, STAB_QUAT_Z)
    } else {
        (ORG_QUAT_W, ORG_QUAT_X, ORG_QUAT_Y, ORG_QUAT_Z)
    }
}

/// Checks that the data row number `row` has as many columns as every row
/// must have.
pub fn check_row_width(row: usize, width: usize) -> (r: Result<(), CsvQuatError>)
    requires
        row + 2 <= usize::MAX,
    ensures
        r == if width == NUM_COLS {
            Ok::<(), CsvQuatError>(())
        } else {
            Err::<(), CsvQuatError>(
                CsvQuatError::ColumnCount {
                    line: line_of_row(row as int) as usize,
                    expected: NUM_COLS,
                    got: width,
                },
            )
        },
{
    if width == NUM_COLS {
        Ok(())
    } else {
        Err(CsvQuatError::ColumnCount { line: row + 2, expected: NUM_COLS, got: width })
    }
}

/// One timestamped orientation of a recorded log. The components are stored
/// as (w, x, y, z), each as a binary64 bit pattern.
#[derive(Clone, Copy, Debug)]
pub struct CsvQuatSample {
    pub t_us: i64,
    pub qw: u64,
    pub qx: u64,
    pub qy: u64,
    pub qz: u64,
}

impl CsvQuatSample {
    /// The orientation of the sample.
    pub open spec fn quat_spec(&self) -> Quat64 {
        Quat64 { w: self.qw, x: self.qx, y: self.qy, z: self.qz }
    }

    /// The orientation of the sample.
    #[verifier::when_used_as_spec(quat_spec)]
    pub fn quat(&self) -> (q: Quat64)
        ensures
            q == self.quat_spec(),
    {
        Quat64 { w: self.qw, x: self.qx, y: self.qy, z: self.qz }
    }

    /// The sample of a row with the timestamp `t_us` and the orientation
    /// (w, x, y, z), or nothing if a component is an infinity or a NaN: such
    /// rows are skipped.
    pub fn from_row(t_us: i64, qw: u64, qx: u64, qy: u64, qz: u64) -> (r: Option<CsvQuatSample>)
        ensures
            r == if (Quat64 { w: qw, x: qx, y: qy, z: qz }).finite() {
                Some(CsvQuatSample { t_us, qw, qx, qy, qz })
            } else {
                None
            },
    {
        let s = CsvQuatSample { t_us, qw, qx, qy, qz };
        if s.is_finite() {
            Some(s)
        } else {
            None
        }
    }

    /// Tests that no component of the orientation is an infinity or a NaN.
    pub fn is_finite(&self) -> (r: bool)
        ensures
            r == self.quat().finite(),
    {
        self.quat().is_finite()
    }
}

} // verus!

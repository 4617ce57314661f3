use vstd::prelude::*;
use crate::triangular::{TriangularMatrix, MatrixFormatError, triangle};

verus! {

/// ASCII whitespace, as it separates values.
pub open spec fn is_space(b: u8) -> bool {
    b == 32 || b == 9 || b == 10 || b == 11 || b == 12 || b == 13
}

pub open spec fn is_digit(b: u8) -> bool {
    48 <= b <= 57
}

/// The values read from the first `k` bytes, and whether byte `k - 1` ends
/// inside a value: whitespace ends a value, a byte after a value's byte
/// extends it as one more decimal digit, any other byte starts a new value.
pub open spec fn scan_values(s: Seq<u8>, k: nat) -> (Seq<int>, bool)
    decreases k,
{
    if k == 0 || k > s.len() {
        (Seq::empty(), false)
    } else {
        let (values, inside) = scan_values(s, (k - 1) as nat);
        let b = s[k - 1];
        let d = b as int - 48;
        if is_space(b) {
            (values, false)
        } else if inside && values.len() > 0 {
            (values.update(values.len() - 1, values.last() * 10 + d), true)
        } else {
            (values.push(d), true)
        }
    }
}

/// Byte `k - 1` is whitespace or a digit, and the value it belongs to so far
/// fits in a `usize`.
pub open spec fn byte_ok(s: Seq<u8>, k: nat) -> bool {
    let (values, inside) = scan_values(s, k);
    is_space(s[k - 1]) || (is_digit(s[k - 1]) && values.last() <= usize::MAX)
}

/// Every byte is whitespace or a digit, and every value fits in a `usize`.
pub open spec fn text_ok(s: Seq<u8>) -> bool {
    forall|k: nat| 1 <= k <= s.len() ==> #[trigger] byte_ok(s, k)
}

/// The number of text lines among the first `k` bytes once surrounding
/// whitespace is trimmed, and the line breaks seen since the last
/// non-whitespace byte.
pub open spec fn scan_lines(s: Seq<u8>, k: nat) -> (nat, nat)
    decreases k,
{
    if k == 0 || k > s.len() {
        (0, 0)
    } else {
        let (lines, pending) = scan_lines(s, (k - 1) as nat);
        let b = s[k - 1];
        if !is_space(b) {
            if lines == 0 {
                (1, 0)
            } else {
                (lines + pending, 0)
            }
        } else if b == 10 && lines > 0 {
            (lines, pending + 1)
        } else {
            (lines, pending)
        }
    }
}

/// Reads a cost table written as text: whitespace-separated decimal values,
/// one text line per table line `1..=n`, where line `i` holds `i` values.
/// The table has `n + 1` lines, `n` the count of text lines after trimming.
pub fn parse_cost_text(text: &Vec<u8>) -> (r: Result<TriangularMatrix<usize>, MatrixFormatError>)
    ensures
        !text_ok(text@) <==> r == Err::<TriangularMatrix<usize>, MatrixFormatError>(
            MatrixFormatError::NotAnInteger,
        ),
        text_ok(text@) ==> {
            let values = scan_values(text@, text@.len()).0;
            let lines = scan_lines(text@, text@.len()).0 + 1;
            &&& values.len() == triangle(lines) <==> r is Ok
            &&& r matches Ok(m) ==> m.wf() && m.lines() == lines && m@.map_values(
                |x: usize| x as int,
            ) == values
            &&& r matches Err(e) ==> e == MatrixFormatError::WrongValueCount(values.len() as usize)
        },
{
    let mut values: Vec<usize> = Vec::new();
    let mut inside: bool = false;
    let mut lines: usize = 0;
    let mut pending: usize = 0;
    let mut k: usize = 0;
    while k < text.len()
        invariant
            k <= text@.len(),
            scan_values(text@, k as nat).0 == values@.map_values(|x: usize| x as int),
            scan_values(text@, k as nat).1 == inside,
            inside ==> values@.len() > 0,
            scan_lines(text@, k as nat) == (lines as nat, pending as nat),
            lines + pending <= k,
            values@.len() <= k,
            forall|q: nat| 1 <= q <= k ==> #[trigger] byte_ok(text@, q),
        decreases text@.len() - k,
    {
        let b: u8 = text[k];
        let ghost before = values@;
        if b == 32 || b == 9 || b == 10 || b == 11 || b == 12 || b == 13 {
            inside = false;
            if b == 10 && lines > 0 {
                pending = pending + 1;
            }
        } else {
            if !(48 <= b && b <= 57) {
                proof {
                    assert(!byte_ok(text@, (k + 1) as nat));
                }
                return Err(MatrixFormatError::NotAnInteger);
            }
            let d: usize = (b - 48) as usize;
            if inside {
                let last: usize = values[values.len() - 1];
                let grown: Option<usize> = match last.checked_mul(10) {
                    Some(t) => t.checked_add(d),
                    None => None,
                };
                match grown {
                    Some(v) => {
                        let n: usize = values.len();
                        values.set(n - 1, v);
                        proof {
                            assert(values@.map_values(|x: usize| x as int) =~= before.map_values(
                                |x: usize| x as int,
                            ).update(n - 1, last * 10 + d));
                        }
                    },
                    None => {
                        proof {
                            assert(last * 10 + d > usize::MAX) by (nonlinear_arith)
                                requires
                                    last * 10 > usize::MAX || last * 10 + d > usize::MAX,
                                    d >= 0,
                            ;
                            assert(!byte_ok(text@, (k + 1) as nat));
                        }
                        return Err(MatrixFormatError::NotAnInteger);
                    },
                }
            } else {
                values.push(d);
                proof {
                    assert(values@.map_values(|x: usize| x as int) =~= before.map_values(
                        |x: usize| x as int,
                    ).push(d as int));
                }
            }
            inside = true;
            if lines == 0 {
                lines = 1;
            } else {
                lines = lines + pending;
            }
            pending = 0;
        }
        proof {
            assert(byte_ok(text@, (k + 1) as nat));
        }
        k = k + 1;
    }
    proof {
        assert(text@.len() == k);
    }
    let count: usize = values.len();
    let ghost read = values@;
    if lines == usize::MAX {
        proof {
            crate::triangular::lemma_triangle_grows(usize::MAX as nat, (usize::MAX + 1) as nat);
            crate::triangular::lemma_triangle_grows(2, usize::MAX as nat);
            assert(read.map_values(|x: usize| x as int).len() == read.len());
        }
        return Err(MatrixFormatError::WrongValueCount(count));
    }
    match TriangularMatrix::from_values(values, lines + 1) {
        Ok(m) => Ok(m),
        Err(_) => {
            proof {
                assert(read.map_values(|x: usize| x as int).len() == read.len());
            }
            Err(MatrixFormatError::WrongValueCount(count))
        },
    }
}

} // verus!

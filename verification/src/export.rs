//! Export of a model as JSON bytes. The border stack is rendered by this
//! module, each layer an object keyed `bo<index>`, each row an object
//! keyed `y<index>` holding the plain decimal cell values; the parameter
//! section is serialized by the caller and spliced in verbatim. Writing
//! the document anywhere is the caller's business.

use crate::model3d::Model3D;
use vstd::prelude::*;

verus! {

/// The decimal digits of `n`, most significant first, no sign and no
/// leading zeros; zero is the single digit `0`.
pub open spec fn dec_digits(n: nat) -> Seq<u8>
    decreases n,
{
    if n < 10 {
        seq![(48 + n) as u8]
    } else {
        dec_digits(n / 10).push((48 + n % 10) as u8)
    }
}

/// The cells of one row, comma separated.
pub open spec fn dec_list(row: Seq<u32>) -> Seq<u8>
    decreases row.len(),
{
    if row.len() == 0 {
        Seq::empty()
    } else if row.len() == 1 {
        dec_digits(row[0] as nat)
    } else {
        dec_list(row.drop_last()) + seq![44u8] + dec_digits(row.last() as nat)
    }
}

/// One row as a JSON object: `{"y<y>":[v0,v1,...]}`.
pub open spec fn row_json(row: Seq<u32>, y: nat) -> Seq<u8> {
    seq![123u8, 34u8, 121u8] + dec_digits(y) + seq![34u8, 58u8, 91u8] + dec_list(row) + seq![
        93u8,
        125u8,
    ]
}

/// The rows of one layer, comma separated, each keyed by its row index.
pub open spec fn rows_json(layer: Seq<Vec<u32>>) -> Seq<u8>
    decreases layer.len(),
{
    if layer.len() == 0 {
        Seq::empty()
    } else if layer.len() == 1 {
        row_json(layer[0]@, 0)
    } else {
        rows_json(layer.drop_last()) + seq![44u8] + row_json(
            layer.last()@,
            (layer.len() - 1) as nat,
        )
    }
}

/// One layer as a JSON object: `{"bo<k>":[rows]}`.
pub open spec fn layer_json(layer: Seq<Vec<u32>>, k: nat) -> Seq<u8> {
    seq![123u8, 34u8, 98u8, 111u8] + dec_digits(k) + seq![34u8, 58u8, 91u8] + rows_json(layer)
        + seq![93u8, 125u8]
}

/// The layers of the border stack, comma separated, each keyed by its
/// layer index.
pub open spec fn layers_json(borders: Seq<Vec<Vec<u32>>>) -> Seq<u8>
    decreases borders.len(),
{
    if borders.len() == 0 {
        Seq::empty()
    } else if borders.len() == 1 {
        layer_json(borders[0]@, 0)
    } else {
        layers_json(borders.drop_last()) + seq![44u8] + layer_json(
            borders.last()@,
            (borders.len() - 1) as nat,
        )
    }
}

/// The whole border stack as a JSON array.
pub open spec fn borders_json(borders: Seq<Vec<Vec<u32>>>) -> Seq<u8> {
    seq![91u8] + layers_json(borders) + seq![93u8]
}

/// The opening of the export document, up to the parameter section.
pub open spec fn params_head() -> Seq<u8> {
    seq![123u8, 34u8, 112u8, 97u8, 114u8, 97u8, 109u8, 115u8, 51u8, 68u8, 34u8, 58u8]
}

/// The key of the borders section, between the two sections.
pub open spec fn borders_head() -> Seq<u8> {
    seq![44u8, 34u8, 98u8, 111u8, 114u8, 100u8, 101u8, 114u8, 115u8, 34u8, 58u8]
}

/// The JSON `null` literal, standing for an excluded section.
pub open spec fn null_lit() -> Seq<u8> {
    seq![110u8, 117u8, 108u8, 108u8]
}

/// The full export document: both sections in order, an excluded one
/// rendered as `null`, the parameter bytes spliced in verbatim.
pub open spec fn document_json(params_json: Option<Seq<u8>>, borders: Option<
    Seq<Vec<Vec<u32>>>,
>) -> Seq<u8> {
    params_head() + (match params_json {
        Some(p) => p,
        None => null_lit(),
    }) + borders_head() + (match borders {
        Some(b) => borders_json(b),
        None => null_lit(),
    }) + seq![125u8]
}

/// Every row of every layer has at least one cell, so each row renders
/// at least one value.
pub open spec fn rows_nonempty(borders: Seq<Vec<Vec<u32>>>) -> bool {
    forall|k: int, y: int|
        0 <= k < borders.len() && 0 <= y < borders[k]@.len() ==> (#[trigger] borders[k]@[y])@.len()
            > 0
}

/// Relies on numtoa's `NumToA::numtoa_str` for `u32`, base 10: the plain
/// decimal digits of the value, no sign, no leading zeros; the 12-byte
/// buffer is larger than any `u32` needs.
#[verifier::external_body]
fn u32_decimal(x: u32) -> (r: Vec<u8>)
    ensures
        r@ == dec_digits(x as nat),
{
    let mut buf = [0u8; 12];
    numtoa::NumToA::numtoa_str(x, 10, &mut buf).as_bytes().to_vec()
}

/// Relies on numtoa's `NumToA::numtoa_str` for `u64`, base 10, as the
/// `u32` wrapper does; the 24-byte buffer is larger than any `u64` needs.
#[verifier::external_body]
fn u64_decimal(x: u64) -> (r: Vec<u8>)
    ensures
        r@ == dec_digits(x as nat),
{
    let mut buf = [0u8; 24];
    numtoa::NumToA::numtoa_str(x, 10, &mut buf).as_bytes().to_vec()
}

/// Appends all of `bytes` to `out`.
fn push_bytes(out: &mut Vec<u8>, bytes: &Vec<u8>)
    ensures
        final(out)@ == old(out)@ + bytes@,
{
    let mut i: usize = 0;
    while i < bytes.len()
        invariant
            0 <= i <= bytes@.len(),
            out@ == old(out)@ + bytes@.subrange(0, i as int),
        decreases bytes@.len() - i,
    {
        out.push(bytes[i]);
        proof {
            assert(old(out)@ + bytes@.subrange(0, i as int + 1) =~= (old(out)@ + bytes@.subrange(
                0,
                i as int,
            )).push(bytes@[i as int]));
        }
        i = i + 1;
    }
    proof {
        assert(bytes@.subrange(0, bytes@.len() as int) =~= bytes@);
    }
}

/// Splitting one value off the end of a comma separated list.
proof fn lemma_dec_list_snoc(row: Seq<u32>, i: int)
    requires
        0 <= i < row.len(),
    ensures
        i == 0 ==> dec_list(row.subrange(0, 1)) == dec_digits(row[0] as nat),
        i >= 1 ==> dec_list(row.subrange(0, i + 1)) == dec_list(row.subrange(0, i)) + seq![44u8]
            + dec_digits(row[i] as nat),
{
    let s = row.subrange(0, i + 1);
    if i == 0 {
        assert(s.len() == 1);
        assert(s[0] == row[0]);
    } else {
        assert(s.drop_last() =~= row.subrange(0, i));
        assert(s.last() == row[i]);
    }
}

/// Splitting one row off the end of a layer's row list.
proof fn lemma_rows_json_snoc(layer: Seq<Vec<u32>>, i: int)
    requires
        0 <= i < layer.len(),
    ensures
        i == 0 ==> rows_json(layer.subrange(0, 1)) == row_json(layer[0]@, 0),
        i >= 1 ==> rows_json(layer.subrange(0, i + 1)) == rows_json(layer.subrange(0, i)) + seq![
            44u8,
        ] + row_json(layer[i]@, i as nat),
{
    let s = layer.subrange(0, i + 1);
    if i == 0 {
        assert(s.len() == 1);
        assert(s[0] == layer[0]);
    } else {
        assert(s.drop_last() =~= layer.subrange(0, i));
        assert(s.last() == layer[i]);
    }
}

/// Splitting one layer off the end of the border stack.
proof fn lemma_layers_json_snoc(borders: Seq<Vec<Vec<u32>>>, i: int)
    requires
        0 <= i < borders.len(),
    ensures
        i == 0 ==> layers_json(borders.subrange(0, 1)) == layer_json(borders[0]@, 0),
        i >= 1 ==> layers_json(borders.subrange(0, i + 1)) == layers_json(borders.subrange(0, i))
            + seq![44u8] + layer_json(borders[i]@, i as nat),
{
    let s = borders.subrange(0, i + 1);
    if i == 0 {
        assert(s.len() == 1);
        assert(s[0] == borders[0]);
    } else {
        assert(s.drop_last() =~= borders.subrange(0, i));
        assert(s.last() == borders[i]);
    }
}

/// Renders one row's cells, comma separated, after `out`.
fn export_row_values(out: &mut Vec<u8>, row: &Vec<u32>)
    requires
        row@.len() > 0,
    ensures
        final(out)@ == old(out)@ + dec_list(row@),
{
    let first = u32_decimal(row[0]);
    push_bytes(out, &first);
    proof {
        lemma_dec_list_snoc(row@, 0);
    }
    let mut x: usize = 1;
    while x < row.len()
        invariant
            1 <= x <= row@.len(),
            out@ == old(out)@ + dec_list(row@.subrange(0, x as int)),
        decreases row@.len() - x,
    {
        out.push(44u8);
        let digits = u32_decimal(row[x]);
        push_bytes(out, &digits);
        proof {
            lemma_dec_list_snoc(row@, x as int);
            assert(out@ =~= old(out)@ + dec_list(row@.subrange(0, x as int + 1)));
        }
        x = x + 1;
    }
    proof {
        assert(row@.subrange(0, row@.len() as int) =~= row@);
    }
}

/// Renders the border stack as a JSON array after `out`, each layer an
/// object keyed `bo<layer index>`, each row an object keyed
/// `y<row index>` holding the row's values in plain decimal form. Every
/// row must hold at least one cell.
#[verifier::rlimit(60)]
pub fn export_border_num(result: &mut Vec<u8>, borders: &Vec<Vec<Vec<u32>>>)
    requires
        rows_nonempty(borders@),
    ensures
        final(result)@ == old(result)@ + borders_json(borders@),
{
    result.push(91u8);
    proof {
        assert(result@ =~= old(result)@ + seq![91u8]);
        assert(layers_json(borders@.subrange(0, 0)) =~= Seq::<u8>::empty());
        assert(result@ =~= old(result)@ + seq![91u8] + layers_json(borders@.subrange(0, 0)));
    }
    let n = borders.len();
    let mut k: usize = 0;
    while k < n
        invariant
            0 <= k <= n,
            n == borders@.len(),
            rows_nonempty(borders@),
            result@ == old(result)@ + seq![91u8] + layers_json(borders@.subrange(0, k as int)),
        decreases n - k,
    {
        let ghost at_entry = result@;
        if k > 0 {
            result.push(44u8);
        }
        result.push(123u8);
        result.push(34u8);
        result.push(98u8);
        result.push(111u8);
        let kd = u64_decimal(k as u64);
        push_bytes(result, &kd);
        result.push(34u8);
        result.push(58u8);
        result.push(91u8);
        let ghost layer_mark = result@;
        proof {
            if k > 0 {
                assert(layer_mark =~= at_entry + seq![44u8] + seq![123u8, 34u8, 98u8, 111u8]
                    + dec_digits(k as nat) + seq![34u8, 58u8, 91u8]);
            } else {
                assert(layer_mark =~= at_entry + seq![123u8, 34u8, 98u8, 111u8] + dec_digits(
                    k as nat,
                ) + seq![34u8, 58u8, 91u8]);
            }
            assert(rows_json(borders@[k as int]@.subrange(0, 0)) =~= Seq::<u8>::empty());
            assert(layer_mark =~= layer_mark + rows_json(borders@[k as int]@.subrange(0, 0)));
        }
        let layer: &Vec<Vec<u32>> = &borders[k];
        let m = layer.len();
        let mut y: usize = 0;
        while y < m
            invariant
                0 <= y <= m,
                m == layer@.len(),
                layer@ == borders@[k as int]@,
                0 <= k < borders@.len(),
                n == borders@.len(),
                rows_nonempty(borders@),
                result@ == layer_mark + rows_json(layer@.subrange(0, y as int)),
            decreases m - y,
        {
            let ghost row_entry = result@;
            if y > 0 {
                result.push(44u8);
            }
            result.push(123u8);
            result.push(34u8);
            result.push(121u8);
            let yd = u64_decimal(y as u64);
            push_bytes(result, &yd);
            result.push(34u8);
            result.push(58u8);
            result.push(91u8);
            proof {
                assert(layer@[y as int]@.len() > 0);
            }
            let row: &Vec<u32> = &layer[y];
            export_row_values(result, row);
            result.push(93u8);
            result.push(125u8);
            proof {
                lemma_rows_json_snoc(layer@, y as int);
                if y > 0 {
                    assert(result@ =~= row_entry + seq![44u8] + row_json(
                        layer@[y as int]@,
                        y as nat,
                    ));
                } else {
                    assert(result@ =~= row_entry + row_json(layer@[y as int]@, 0));
                }
                assert(result@ =~= layer_mark + rows_json(layer@.subrange(0, y as int + 1)));
            }
            y = y + 1;
        }
        result.push(93u8);
        result.push(125u8);
        proof {
            assert(layer@.subrange(0, m as int) =~= layer@);
            lemma_layers_json_snoc(borders@, k as int);
            assert(result@ =~= layer_mark + rows_json(layer@) + seq![93u8, 125u8]);
            if k > 0 {
                assert(result@ =~= at_entry + seq![44u8] + layer_json(borders@[k as int]@, k as nat));
            } else {
                assert(result@ =~= at_entry + layer_json(borders@[k as int]@, 0));
            }
            assert(result@ =~= old(result)@ + seq![91u8] + layers_json(
                borders@.subrange(0, k as int + 1),
            ));
        }
        k = k + 1;
    }
    result.push(93u8);
    proof {
        assert(borders@.subrange(0, n as int) =~= borders@);
        assert(result@ =~= old(result)@ + borders_json(borders@));
    }
}

impl Model3D {
    /// Assembles the export document for this model: the parameter
    /// section is the caller's serialized bytes, spliced in verbatim, or
    /// `null` when the caller excludes it; the borders section is
    /// rendered here, or `null` when excluded.
    pub fn export_model(&self, params_json: Option<&Vec<u8>>, include_borders: bool) -> (out: Vec<
        u8,
    >)
        requires
            include_borders ==> rows_nonempty(self.borders@),
        ensures
            out@ == document_json(
                match params_json {
                    Some(p) => Some(p@),
                    None => None,
                },
                if include_borders {
                    Some(self.borders@)
                } else {
                    None
                },
            ),
    {
        let mut out: Vec<u8> = Vec::new();
        out.push(123u8);
        out.push(34u8);
        out.push(112u8);
        out.push(97u8);
        out.push(114u8);
        out.push(97u8);
        out.push(109u8);
        out.push(115u8);
        out.push(51u8);
        out.push(68u8);
        out.push(34u8);
        out.push(58u8);
        proof {
            assert(out@ =~= params_head());
        }
        match params_json {
            Some(p) => {
                push_bytes(&mut out, p);
            },
            None => {
                out.push(110u8);
                out.push(117u8);
                out.push(108u8);
                out.push(108u8);
                proof {
                    assert(out@ =~= params_head() + null_lit());
                }
            },
        }
        let ghost mid = out@;
        out.push(44u8);
        out.push(34u8);
        out.push(98u8);
        out.push(111u8);
        out.push(114u8);
        out.push(100u8);
        out.push(101u8);
        out.push(114u8);
        out.push(115u8);
        out.push(34u8);
        out.push(58u8);
        proof {
            assert(out@ =~= mid + borders_head());
        }
        if include_borders {
            export_border_num(&mut out, &self.borders);
        } else {
            out.push(110u8);
            out.push(117u8);
            out.push(108u8);
            out.push(108u8);
            proof {
                assert(out@ =~= mid + borders_head() + null_lit());
            }
        }
        out.push(125u8);
        proof {
            assert(out@ =~= document_json(
                match params_json {
                    Some(p) => Some(p@),
                    None => None,
                },
                if include_borders {
                    Some(self.borders@)
                } else {
                    None
                },
            ));
        }
        out
    }
}

} // verus!

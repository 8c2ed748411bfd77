use accelerator::extract::ScalarField;
use accelerator::extract::VectorField;
use accelerator::extract::scalar_field;
use accelerator::extract::vector_field;

fn tok_to_f64(t: &[u8]) -> Option<f64> {
    std::str::from_utf8(t).ok().and_then(|s| s.parse::<f64>().ok())
}

fn scalar_mean(data: &[u8]) -> Option<f64> {
    match scalar_field(data) {
        ScalarField::Absent => None,
        ScalarField::Uniform(t) => tok_to_f64(&t),
        ScalarField::Samples(ts) => {
            let mut sum = 0.0;
            let mut count = 0usize;
            for t in &ts {
                if let Some(v) = tok_to_f64(t) {
                    sum += v;
                    count += 1;
                }
            }
            if count > 0 { Some(sum / count as f64) } else { None }
        }
    }
}

fn vector_mean(data: &[u8]) -> (f64, f64, f64) {
    match vector_field(data) {
        VectorField::Absent => (0.0, 0.0, 0.0),
        VectorField::Uniform(x, y, z) => (
            tok_to_f64(&x).unwrap_or(0.0),
            tok_to_f64(&y).unwrap_or(0.0),
            tok_to_f64(&z).unwrap_or(0.0),
        ),
        VectorField::Samples(s) => {
            let count = s.zs.len();
            if count == 0 {
                return (0.0, 0.0, 0.0);
            }
            let sum = |v: &Vec<Vec<u8>>| -> f64 {
                v.iter().map(|t| tok_to_f64(t).unwrap_or(0.0)).sum()
            };
            let n = count as f64;
            (sum(&s.xs) / n, sum(&s.ys) / n, sum(&s.zs) / n)
        }
    }
}

#[test]
fn empty_input_scalar_absent() {
    assert_eq!(scalar_field(b""), ScalarField::Absent);
    assert_eq!(scalar_mean(b""), None);
}

#[test]
fn empty_input_vector_zero_triple() {
    assert_eq!(vector_field(b""), VectorField::Absent);
    assert_eq!(vector_mean(b""), (0.0, 0.0, 0.0));
}

#[test]
fn nonuniform_scalar_list_mean() {
    // the list size header `4` before the parenthesis is outside the region
    let data = b"internalField   nonuniform List<scalar>\n4\n(\n1\n2\n3\n4\n)\n;\nboundaryField\n{\n}\n";
    match scalar_field(data) {
        ScalarField::Samples(ts) => {
            let toks: Vec<&[u8]> = ts.iter().map(|t| t.as_slice()).collect();
            assert_eq!(toks, vec![b"1" as &[u8], b"2", b"3", b"4"]);
        }
        other => panic!("expected samples, got {:?}", other),
    }
    let data2 = b"internalField   nonuniform List<scalar>\n(\n1 2 3 4\n)\n;\nboundaryField\n";
    assert_eq!(scalar_mean(data2), Some(2.5));
}

#[test]
fn uniform_scalar_exact() {
    let data = b"internalField   uniform 7.5;\n";
    assert_eq!(scalar_field(data), ScalarField::Uniform(b"7.5".to_vec()));
    assert_eq!(scalar_mean(data), Some(7.5));
}

#[test]
fn nonuniform_vector_list_mean() {
    let data = b"internalField   nonuniform List<vector>\n2\n(\n(1 0 0)(3 2 0)\n)\n;\nboundaryField\n";
    match vector_field(data) {
        VectorField::Samples(s) => {
            // the size header `2` is outside the region; tokens cycle x, y, z
            assert_eq!(s.xs, vec![b"1".to_vec(), b"3".to_vec()]);
            assert_eq!(s.ys, vec![b"0".to_vec(), b"2".to_vec()]);
            assert_eq!(s.zs, vec![b"0".to_vec(), b"0".to_vec()]);
        }
        other => panic!("expected samples, got {:?}", other),
    }
    assert_eq!(vector_mean(data), (2.0, 1.0, 0.0));
}

#[test]
fn uniform_vector_exact() {
    let data = b"internalField   uniform (1 2 3);\n";
    assert_eq!(
        vector_field(data),
        VectorField::Uniform(b"1".to_vec(), b"2".to_vec(), b"3".to_vec())
    );
    assert_eq!(vector_mean(data), (1.0, 2.0, 3.0));
}

#[test]
fn repeated_calls_agree() {
    let data = b"internalField   nonuniform List<scalar>\n(\n10 20\n)\n;\nboundaryField\n";
    let first = scalar_field(data);
    let second = scalar_field(data);
    assert_eq!(first, second);
    assert_eq!(vector_field(data), vector_field(data));
    assert_eq!(scalar_mean(data), scalar_mean(data));
}

#[test]
fn boundary_marker_truncates_region() {
    // a ')' exists after boundaryField, but the region must close before it
    let data = b"internalField nonuniform\n(\n1 2\n)\n;\nboundaryField\n{\ninlet ( 9 9 9 )\n}\n";
    assert_eq!(scalar_mean(data), Some(1.5));
}

#[test]
fn closing_paren_only_after_boundary_is_absent() {
    let data = b"internalField nonuniform\n(\n1 2\nboundaryField\n)\n";
    assert_eq!(scalar_field(data), ScalarField::Absent);
    assert_eq!(vector_field(data), VectorField::Absent);
}

#[test]
fn anchor_without_marker_is_absent() {
    let data = b"internalField   somethingElse 1 2 3\n";
    assert_eq!(scalar_field(data), ScalarField::Absent);
    assert_eq!(vector_field(data), VectorField::Absent);
    assert_eq!(vector_mean(data), (0.0, 0.0, 0.0));
}

#[test]
fn no_anchor_is_absent() {
    let data = b"boundaryField uniform 3.0; nonuniform (1 2 3)";
    assert_eq!(scalar_field(data), ScalarField::Absent);
    assert_eq!(vector_field(data), VectorField::Absent);
}

#[test]
fn trailing_incomplete_triple() {
    // two numbers after the last complete triple: they feed the x and y sums
    // but the record count stays at the complete triples
    let data = b"internalField nonuniform\n(\n(1 1 1) 5 7\n)\n;\nboundaryField\n";
    match vector_field(data) {
        VectorField::Samples(s) => {
            assert_eq!(s.xs, vec![b"1".to_vec(), b"5".to_vec()]);
            assert_eq!(s.ys, vec![b"1".to_vec(), b"7".to_vec()]);
            assert_eq!(s.zs, vec![b"1".to_vec()]);
        }
        other => panic!("expected samples, got {:?}", other),
    }
    assert_eq!(vector_mean(data), (6.0, 8.0, 1.0));
}

#[test]
fn nonuniform_without_open_paren_is_absent() {
    let data = b"internalField nonuniform List<scalar> 1 2 3;";
    assert_eq!(scalar_field(data), ScalarField::Absent);
}

#[test]
fn empty_region_is_absent() {
    let data = b"internalField nonuniform\n(\n)\n;\nboundaryField\n";
    assert_eq!(scalar_field(data), ScalarField::Absent);
    assert_eq!(vector_field(data), VectorField::Absent);
}

#[test]
fn non_numeric_tokens_are_skipped() {
    let data = b"internalField nonuniform\n(\n1 foo 2 -x .\n)\n;\nboundaryField\n";
    assert_eq!(scalar_mean(data), Some(1.5));
}

#[test]
fn uniform_three_bare_tokens_is_not_a_scalar() {
    let data = b"internalField uniform 1 2 3;\n";
    assert_eq!(scalar_field(data), ScalarField::Absent);
    assert_eq!(vector_mean(data), (1.0, 2.0, 3.0));
}

#[test]
fn uniform_single_token_is_not_a_vector() {
    let data = b"internalField uniform 7.5;\n";
    assert_eq!(vector_field(data), VectorField::Absent);
    assert_eq!(vector_mean(data), (0.0, 0.0, 0.0));
}

#[test]
fn uniform_vector_component_parse_failure_gives_zero() {
    let data = b"internalField uniform (1 x 3);\n";
    assert_eq!(vector_mean(data), (1.0, 0.0, 3.0));
}

#[test]
fn uniform_needs_terminating_semicolon() {
    let data = b"internalField uniform 7.5\n";
    assert_eq!(scalar_field(data), ScalarField::Absent);
}

#[test]
fn representation_keyword_beyond_window_is_not_seen() {
    let mut data = Vec::new();
    data.extend_from_slice(b"internalField ");
    data.extend_from_slice(&[b'/'; 600]);
    data.extend_from_slice(b" nonuniform\n(\n1 2\n)\n;\nboundaryField\n");
    assert_eq!(scalar_field(&data), ScalarField::Absent);
    assert_eq!(vector_field(&data), VectorField::Absent);
}

#[test]
fn first_anchor_occurrence_wins() {
    let data = b"internalField uniform 2.0;\ninternalField uniform 9.0;\n";
    assert_eq!(scalar_mean(data), Some(2.0));
}

#[test]
fn uniform_padded_parenthesized_group() {
    let data = b"internalField uniform ( 1 2 3 );\n";
    assert_eq!(vector_mean(data), (1.0, 2.0, 3.0));
    // in scalar mode the capture keeps its parentheses and is not a number
    assert_eq!(scalar_field(data), ScalarField::Absent);
}

#[test]
fn uniform_parenthesized_single_value() {
    let data = b"internalField uniform (5);\n";
    // neither a bare scalar number nor a three-part triple
    assert_eq!(scalar_field(data), ScalarField::Absent);
    assert_eq!(vector_field(data), VectorField::Absent);
}

#[test]
fn scientific_notation_tokens() {
    let data = b"internalField nonuniform\n(\n1e2 -0.5E1 .5e1\n)\n;\nboundaryField\n";
    // (100 - 5 + 5) / 3
    assert_eq!(scalar_mean(data), Some(100.0 / 3.0));
}

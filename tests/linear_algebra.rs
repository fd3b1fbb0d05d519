use wasm_realtime_sws::linear_algebra::{get_companion_matrix, ToeplitzError};

#[test]
fn test_companion_matrix() {
    let polynomial = vec![8.0f32, -3.0, 2.0];
    let actual = get_companion_matrix(&polynomial, 0.0, 1.0, |c: f32| -c);
    let expected = vec![
        vec![0.0f32, 1.0, 0.0],
        vec![0.0, 0.0, 1.0],
        vec![-8.0, 3.0, -2.0],
    ];
    assert_eq!(actual.len(), expected.len());
    for (row, expected_row) in actual.iter().zip(expected.iter()) {
        for (a, e) in row.iter().zip(expected_row.iter()) {
            assert!((a - e).abs() <= 1e-6, "{:?} vs {:?}", actual, expected);
        }
    }
}

#[test]
fn companion_matrix_of_a_linear_polynomial() {
    let actual = get_companion_matrix(&vec![5i64], 0, 1, |c: i64| -c);
    assert_eq!(actual, vec![vec![-5]]);
}

#[test]
fn companion_matrix_of_degree_four() {
    let actual = get_companion_matrix(&vec![1i64, 2, 3, 4], 0, 1, |c: i64| -c);
    assert_eq!(
        actual,
        vec![
            vec![0, 1, 0, 0],
            vec![0, 0, 1, 0],
            vec![0, 0, 0, 1],
            vec![-1, -2, -3, -4],
        ]
    );
}

#[test]
fn toeplitz_error_is_comparable() {
    let e = ToeplitzError::SingularPrincipalMinor;
    assert_eq!(e, ToeplitzError::SingularPrincipalMinor);
    assert_eq!(format!("{:?}", e), "SingularPrincipalMinor");
}

use soft_renderer::fixed::ONE;
use soft_renderer::matrix::{
    identity_matrix, matrix_add, matrix_matrix_multiply, matrix_scale, matrix_subtract,
    matrix_vector_multiply, scale_matrix, translation_matrix, x_rotation_matrix, Matrix4x4,
};
use soft_renderer::vector3::Vector3;

/// The raw fixed-point form of a real value.
fn fx(v: f64) -> i64 {
    (v * ONE as f64).round() as i64
}

fn fx_grid(g: [[f64; 4]; 4]) -> [[i64; 4]; 4] {
    let mut m: [[i64; 4]; 4] = [[0; 4]; 4];
    for row in 0..4 {
        for col in 0..4 {
            m[row][col] = fx(g[row][col]);
        }
    }
    m
}

#[test]
fn matrix_scale_test() {
    let m1 = Matrix4x4 {
        m: fx_grid([
            [1.0, 2.0, 3.0, 4.0],
            [5.0, 6.0, 7.0, 8.0],
            [9.0, 10.0, 11.0, 12.0],
            [13.0, 14.0, 15.0, 16.0],
        ]),
    };
    let m2 = Matrix4x4 {
        m: fx_grid([
            [2.0, 4.0, 6.0, 8.0],
            [10.0, 12.0, 14.0, 16.0],
            [18.0, 20.0, 22.0, 24.0],
            [26.0, 28.0, 30.0, 32.0],
        ]),
    };
    let m3 = matrix_scale(&m1, fx(2.0));
    for row in 0..4 {
        for col in 0..4 {
            assert_eq!(m2.m[row][col], m3.m[row][col]);
        }
    }
}

#[test]
fn matrix_add_test() {
    let m1 = Matrix4x4 {
        m: fx_grid([
            [1.0, 1.0, 1.0, 1.0],
            [2.0, 2.0, 2.0, 2.0],
            [3.0, 3.0, 3.0, 3.0],
            [4.0, 4.0, 4.0, 4.0],
        ]),
    };
    let m2 = Matrix4x4 {
        m: fx_grid([
            [1.1, 1.2, 1.3, 1.4],
            [2.5, 2.6, 2.7, 2.8],
            [3.9, 3.1, 3.2, 3.3],
            [4.4, 4.5, 4.6, 4.7],
        ]),
    };
    let m3 = Matrix4x4 {
        m: fx_grid([
            [2.1, 2.2, 2.3, 2.4],
            [4.5, 4.6, 4.7, 4.8],
            [6.9, 6.1, 6.2, 6.3],
            [8.4, 8.5, 8.6, 8.7],
        ]),
    };
    let m4 = matrix_add(&m1, &m2);
    for row in 0..4 {
        for col in 0..4 {
            assert_eq!(m3.m[row][col], m4.m[row][col]);
        }
    }
}

#[test]
fn matrix_subtract_test() {
    let m1 = Matrix4x4 {
        m: fx_grid([
            [1.0, 1.0, 1.0, 1.0],
            [2.0, 2.0, 2.0, 2.0],
            [3.0, 3.0, 3.0, 3.0],
            [4.0, 4.0, 4.0, 4.0],
        ]),
    };
    let m2 = Matrix4x4 {
        m: fx_grid([
            [1.1, 1.2, 1.3, 1.4],
            [2.5, 2.6, 2.7, 2.8],
            [3.9, 3.1, 3.2, 3.3],
            [4.4, 4.5, 4.6, 4.7],
        ]),
    };
    let m3 = Matrix4x4 {
        m: fx_grid([
            [-0.1, -0.2, -0.3, -0.4],
            [-0.5, -0.6, -0.7, -0.8],
            [-0.9, -0.1, -0.2, -0.3],
            [-0.4, -0.5, -0.6, -0.7],
        ]),
    };
    let m4 = matrix_subtract(&m1, &m2);
    for row in 0..4 {
        for col in 0..4 {
            assert_eq!(m3.m[row][col], m4.m[row][col]);
        }
    }
}

#[test]
fn matrix_matrix_multiply_test() {
    let m1 = Matrix4x4 {
        m: fx_grid([
            [1.0, 1.0, 1.0, 1.0],
            [2.0, 2.0, 2.0, 2.0],
            [3.0, 3.0, 3.0, 3.0],
            [4.0, 4.0, 4.0, 4.0],
        ]),
    };
    let m2 = Matrix4x4 {
        m: fx_grid([
            [5.0, 5.0, 5.0, 5.0],
            [6.0, 6.0, 6.0, 6.0],
            [7.0, 7.0, 7.0, 7.0],
            [8.0, 8.0, 8.0, 8.0],
        ]),
    };
    let m3 = Matrix4x4 {
        m: fx_grid([
            [26.0, 26.0, 26.0, 26.0],
            [52.0, 52.0, 52.0, 52.0],
            [78.0, 78.0, 78.0, 78.0],
            [104.0, 104.0, 104.0, 104.0],
        ]),
    };
    let m4 = matrix_matrix_multiply(&m1, &m2);
    for row in 0..4 {
        for col in 0..4 {
            assert_eq!(m3.m[row][col], m4.m[row][col]);
        }
    }
}

#[test]
fn matrix_vector_multiply_test() {
    let m1 = Matrix4x4 {
        m: fx_grid([
            [1.0, 2.0, 3.0, 4.0],
            [5.0, 6.0, 7.0, 8.0],
            [9.0, 10.0, 11.0, 12.0],
            [13.0, 14.0, 15.0, 16.0],
        ]),
    };
    let v1 = Vector3::new(fx(1.0), fx(2.0), fx(3.0));
    let m3: [i64; 4] = [fx(18.0), fx(46.0), fx(74.0), fx(102.0)];
    let m4 = matrix_vector_multiply(&m1, &v1);
    for row in 0..4 {
        assert_eq!(m3[row], m4[row]);
    }
}

#[test]
fn identity_multiply_returns_operand() {
    let a = Matrix4x4 {
        m: fx_grid([
            [1.5, -2.0, 3.25, 0.0],
            [0.5, 6.0, -7.0, 8.0],
            [9.0, 0.25, 11.0, -12.0],
            [13.0, 14.0, -15.5, 16.0],
        ]),
    };
    let id = identity_matrix();
    let p = matrix_matrix_multiply(&id, &a);
    for row in 0..4 {
        for col in 0..4 {
            assert_eq!(p.m[row][col], a.m[row][col]);
        }
    }
}

#[test]
fn scale_by_one_distributes_over_add() {
    let a = Matrix4x4 {
        m: fx_grid([
            [1.5, -2.0, 3.25, 0.0],
            [0.5, 6.0, -7.0, 8.0],
            [9.0, 0.25, 11.0, -12.0],
            [13.0, 14.0, -15.5, 16.0],
        ]),
    };
    let b = Matrix4x4 {
        m: fx_grid([
            [0.1, 0.2, 0.3, 0.4],
            [-0.5, 0.6, 0.7, -0.8],
            [0.9, 1.1, -1.2, 1.3],
            [2.4, -2.5, 2.6, 2.7],
        ]),
    };
    let lhs = matrix_scale(&matrix_add(&a, &b), ONE);
    let rhs = matrix_add(&matrix_scale(&a, ONE), &matrix_scale(&b, ONE));
    for row in 0..4 {
        for col in 0..4 {
            assert_eq!(lhs.m[row][col], rhs.m[row][col]);
        }
    }
}

#[test]
fn add_then_subtract_returns_first() {
    let a = Matrix4x4 {
        m: fx_grid([
            [1.5, -2.0, 3.25, 0.0],
            [0.5, 6.0, -7.0, 8.0],
            [9.0, 0.25, 11.0, -12.0],
            [13.0, 14.0, -15.5, 16.0],
        ]),
    };
    let b = Matrix4x4 {
        m: fx_grid([
            [0.1, 0.2, 0.3, 0.4],
            [-0.5, 0.6, 0.7, -0.8],
            [0.9, 1.1, -1.2, 1.3],
            [2.4, -2.5, 2.6, 2.7],
        ]),
    };
    let back = matrix_subtract(&matrix_add(&a, &b), &b);
    for row in 0..4 {
        for col in 0..4 {
            assert_eq!(back.m[row][col], a.m[row][col]);
        }
    }
}

#[test]
fn constructor_matrices_place_entries() {
    let id = identity_matrix();
    for row in 0..4 {
        for col in 0..4 {
            let expected: i64 = if row == col { ONE } else { 0 };
            assert_eq!(id.m[row][col], expected);
        }
    }
    let rx = x_rotation_matrix(fx(0.6), fx(0.8));
    assert_eq!(rx.m[0][0], ONE);
    assert_eq!(rx.m[1][1], fx(0.8));
    assert_eq!(rx.m[1][2], -fx(0.6));
    assert_eq!(rx.m[2][1], fx(0.6));
    assert_eq!(rx.m[2][2], fx(0.8));
    assert_eq!(rx.m[3][3], ONE);
    let sm = scale_matrix(fx(2.0), fx(3.0), fx(4.0));
    assert_eq!(sm.m[0][0], fx(2.0));
    assert_eq!(sm.m[1][1], fx(3.0));
    assert_eq!(sm.m[2][2], fx(4.0));
    assert_eq!(sm.m[3][3], ONE);
    let tm = translation_matrix(fx(1.0), fx(2.0), fx(3.0));
    assert_eq!(tm.m[0][3], fx(1.0));
    assert_eq!(tm.m[1][3], fx(2.0));
    assert_eq!(tm.m[2][3], fx(3.0));
    assert_eq!(tm.m[0][0], 0);
    assert_eq!(tm.m[3][3], ONE);
}

use statlearn::fx::{Fx, FX_SCALE};
use statlearn::hclust::ClusterDistance;
use statlearn::kernel::{get_errors, get_kernel_matrix, inner_product, kernel_lookup};
use statlearn::mat::{zeros, Mat};
use statlearn::svc::SVC;
use statlearn::svc2::SVC2;
use statlearn::FitError;

fn fxv(units: &[i64]) -> Vec<Fx> {
    units.iter().map(|&u| Fx::from_int(u)).collect()
}

fn fxr(raws: &[i64]) -> Vec<Fx> {
    raws.iter().map(|&r| Fx::from_raw(r)).collect()
}

fn mat_from_rows(rows: &[Vec<Fx>]) -> Mat {
    let cols = rows[0].len();
    let mut data: Vec<Fx> = Vec::new();
    for r in rows {
        assert_eq!(r.len(), cols);
        data.extend_from_slice(r);
    }
    Mat::from_vec(data, rows.len(), cols)
}

fn half() -> i64 {
    FX_SCALE / 2
}

/// A freshly initialized KKT-scan model over the given data, with the
/// kernel cache built and zero coefficients, as `fit` starts out.
fn svc2_initial(c: i64, tolerance_raw: i64, max_iter: usize, rows: &[Vec<Fx>], y: &[Fx]) -> SVC2 {
    let data = mat_from_rows(rows);
    let n = data.rows;
    SVC2 {
        c: Fx::from_int(c),
        tolerance: Fx::from_raw(tolerance_raw),
        max_iter,
        kernels: get_kernel_matrix(&data),
        data,
        y: y.to_vec(),
        alpha: zeros(n),
        b: Fx::zero(),
        converged: false,
    }
}

#[test]
fn test_inner_product_exact() {
    let v1 = fxv(&[3, 4, 5]);
    let v2 = fxv(&[7, 8, 2]);
    assert_eq!(inner_product(&v1, &v2).raw(), 63 * FX_SCALE);
    let v3 = fxv(&[1, 2, 3]);
    let v4 = fxv(&[5, 4, 2]);
    assert_eq!(inner_product(&v3, &v4).raw(), 19 * FX_SCALE);
}

#[test]
fn test_kernel_matrix_lower_triangle_and_mirror() {
    let m = mat_from_rows(&[fxv(&[1, 2]), fxv(&[3, 4])]);
    let km = get_kernel_matrix(&m);
    assert_eq!(km.rows, 2);
    assert_eq!(km.cols, 2);
    // Lower triangle holds the kernel values, strict upper is zero.
    assert_eq!(km.at(0, 0).raw(), 5 * FX_SCALE);
    assert_eq!(km.at(1, 0).raw(), 11 * FX_SCALE);
    assert_eq!(km.at(1, 1).raw(), 25 * FX_SCALE);
    assert_eq!(km.at(0, 1).raw(), 0);
    // Lookups mirror across the diagonal.
    assert_eq!(kernel_lookup(&km, 0, 1).raw(), 11 * FX_SCALE);
    assert_eq!(kernel_lookup(&km, 1, 0).raw(), 11 * FX_SCALE);
}

#[test]
fn test_get_errors_initial_state() {
    // With zero coefficients and bias, the residual is -y_i everywhere.
    let m = mat_from_rows(&[fxv(&[1]), fxv(&[-1]), fxv(&[2])]);
    let km = get_kernel_matrix(&m);
    let y = fxv(&[1, -1, 1]);
    let alpha = zeros(3);
    let errors = get_errors(&alpha, &y, Fx::zero(), &km);
    assert_eq!(errors[0].raw(), -FX_SCALE);
    assert_eq!(errors[1].raw(), FX_SCALE);
    assert_eq!(errors[2].raw(), -FX_SCALE);
}

#[test]
fn test_take_step_exact_update() {
    // Two opposite 1-D points: the first accepted step moves both
    // coefficients to exactly 0.5 and leaves the bias at 0.
    let mut model = svc2_initial(10, 10, 100, &[fxv(&[1]), fxv(&[-1])], &fxv(&[1, -1]));
    let errors = get_errors(&model.alpha, &model.y, model.b, &model.kernels);
    let updated = model.take_step(&errors, 0, 1);
    assert!(updated);
    assert_eq!(model.alpha[0].raw(), half());
    assert_eq!(model.alpha[1].raw(), half());
    assert_eq!(model.b.raw(), 0);
    // The resulting decision function separates the two points.
    assert!(model.decision_function(&fxv(&[1])).raw() > 0);
    assert!(model.decision_function(&fxv(&[-1])).raw() < 0);
}

#[test]
fn test_take_step_insignificant_move_rejected() {
    // After the first accepted step both residuals vanish, so a second
    // step on the same pair moves less than the 0.001 threshold and is
    // rejected without touching the state.
    let mut model = svc2_initial(10, 10, 100, &[fxv(&[1]), fxv(&[-1])], &fxv(&[1, -1]));
    let errors = get_errors(&model.alpha, &model.y, model.b, &model.kernels);
    assert!(model.take_step(&errors, 0, 1));
    let errors = get_errors(&model.alpha, &model.y, model.b, &model.kernels);
    assert_eq!(errors[0].raw(), 0);
    assert_eq!(errors[1].raw(), 0);
    let updated = model.take_step(&errors, 0, 1);
    assert!(!updated);
    assert_eq!(model.alpha[0].raw(), half());
    assert_eq!(model.alpha[1].raw(), half());
}

#[test]
fn test_predict_zero_decision_is_positive() {
    // The fitted two-point model has bias 0, so the decision value at
    // the origin is exactly 0; the sign policy counts that as +1.
    let mut model = svc2_initial(10, 10, 100, &[fxv(&[1]), fxv(&[-1])], &fxv(&[1, -1]));
    let errors = get_errors(&model.alpha, &model.y, model.b, &model.kernels);
    assert!(model.take_step(&errors, 0, 1));
    assert_eq!(model.decision_function(&fxv(&[0])).raw(), 0);
    assert_eq!(model.predict(&fxv(&[0])).raw(), FX_SCALE);
}

#[test]
fn test_take_step_same_index_rejected() {
    // Selecting i == j must reject with no state change.
    let mut model = svc2_initial(10, 10, 100, &[fxv(&[1]), fxv(&[-1])], &fxv(&[1, -1]));
    let errors = get_errors(&model.alpha, &model.y, model.b, &model.kernels);
    let before_alpha: Vec<i64> = model.alpha.iter().map(|a| a.raw()).collect();
    let before_b = model.b.raw();
    let updated = model.take_step(&errors, 1, 1);
    assert!(!updated);
    let after_alpha: Vec<i64> = model.alpha.iter().map(|a| a.raw()).collect();
    assert_eq!(before_alpha, after_alpha);
    assert_eq!(before_b, model.b.raw());
}

#[test]
fn test_take_step_duplicate_rows_rejected() {
    // Two identical rows give eta <= 0, so the pair is rejected.
    let mut model = svc2_initial(
        10,
        10,
        100,
        &[fxv(&[2, 3]), fxv(&[2, 3]), fxv(&[-1, 0])],
        &fxv(&[1, 1, -1]),
    );
    let errors = get_errors(&model.alpha, &model.y, model.b, &model.kernels);
    let updated = model.take_step(&errors, 0, 1);
    assert!(!updated);
    assert_eq!(model.alpha[0].raw(), 0);
    assert_eq!(model.alpha[1].raw(), 0);
    assert_eq!(model.b.raw(), 0);
}

#[test]
fn test_fit_rejects_bad_shapes() {
    let empty = Mat::from_vec(Vec::new(), 0, 0);
    let some = mat_from_rows(&[fxv(&[1]), fxv(&[2])]);

    let mut b_variant = SVC2::new(Fx::from_int(10), Fx::from_raw(10), 10);
    assert_eq!(b_variant.fit(&empty, &fxv(&[])), Err(FitError::EmptyData));
    assert_eq!(
        b_variant.fit(&some, &fxv(&[1])),
        Err(FitError::LengthMismatch)
    );

    let mut a_variant = SVC::new(Fx::from_int(10), Fx::from_raw(10), 10);
    assert_eq!(a_variant.fit(&empty, &fxv(&[])), Err(FitError::EmptyData));
    assert_eq!(
        a_variant.fit(&some, &fxv(&[1, -1, 1])),
        Err(FitError::LengthMismatch)
    );
}

#[test]
fn test_fit_variant_b_separable_clusters() {
    // Two 2-D clusters, one around (0,0) labeled -1 and one around
    // (5,5) labeled +1: the fitted boundary classifies every training
    // point correctly and the bias lies strictly between the clusters'
    // projections (negative at (0,0), outweighed at (5,5)).
    let h = half();
    let rows = vec![
        fxr(&[0, 0]),
        fxr(&[h, 0]),
        fxr(&[0, h]),
        fxr(&[h, h]),
        fxr(&[5 * FX_SCALE, 5 * FX_SCALE]),
        fxr(&[5 * FX_SCALE + h, 5 * FX_SCALE]),
        fxr(&[5 * FX_SCALE, 5 * FX_SCALE + h]),
        fxr(&[4 * FX_SCALE + h, 5 * FX_SCALE + h]),
    ];
    let y = fxv(&[-1, -1, -1, -1, 1, 1, 1, 1]);
    let data = mat_from_rows(&rows);
    let mut model = SVC2::new(Fx::from_int(10), Fx::from_raw(10), 1000);
    assert_eq!(model.fit(&data, &y), Ok(()));
    for (row, label) in rows.iter().zip(y.iter()) {
        assert_eq!(model.predict(row).raw(), label.raw());
    }
    // Box constraint on every coefficient.
    for a in model.alpha.iter() {
        assert!(0 <= a.raw() && a.raw() <= 10 * FX_SCALE);
    }
    // The decision value at the negative cluster's center is exactly
    // the bias; it must be strictly negative, and strictly dominated
    // at the positive center.
    assert!(model.decision_function(&fxr(&[0, 0])).raw() < 0);
    assert!(
        model
            .decision_function(&fxr(&[5 * FX_SCALE, 5 * FX_SCALE]))
            .raw()
            > 0
    );
}

#[test]
fn test_fit_variant_b_converges_early() {
    // Trivially separable 1-D data: training must end with an early
    // no-update pass and a consistent sign on every training point.
    let h = half();
    let rows = vec![
        fxr(&[-FX_SCALE]),
        fxr(&[-h]),
        fxr(&[h]),
        fxr(&[FX_SCALE]),
    ];
    let y = fxv(&[-1, -1, 1, 1]);
    let data = mat_from_rows(&rows);
    let mut model = SVC2::new(Fx::from_int(10), Fx::from_raw(10), 100);
    assert_eq!(model.fit(&data, &y), Ok(()));
    assert!(model.converged);
    for (row, label) in rows.iter().zip(y.iter()) {
        let d = model.decision_function(row).raw();
        if label.raw() > 0 {
            assert!(d > 0);
        } else {
            assert!(d < 0);
        }
    }
}

#[test]
fn test_fit_degenerate_data_converges_immediately() {
    // Identical rows give every pair zero curvature, so the very first
    // scan accepts nothing: training reports convergence at once and
    // leaves the zero coefficients untouched.
    let rows = vec![fxv(&[1, 1]), fxv(&[1, 1]), fxv(&[1, 1])];
    let y = fxv(&[1, -1, 1]);
    let data = mat_from_rows(&rows);
    let mut model = SVC2::new(Fx::from_int(10), Fx::from_raw(10), 100);
    assert_eq!(model.fit(&data, &y), Ok(()));
    assert!(model.converged);
    for a in model.alpha.iter() {
        assert_eq!(a.raw(), 0);
    }
    assert_eq!(model.b.raw(), 0);
}

#[test]
fn test_predict_idempotent() {
    let rows = vec![fxv(&[1]), fxv(&[-1])];
    let y = fxv(&[1, -1]);
    let data = mat_from_rows(&rows);
    let mut model = SVC2::new(Fx::from_int(10), Fx::from_raw(10), 100);
    assert_eq!(model.fit(&data, &y), Ok(()));
    let x = fxr(&[3 * half()]);
    let first = model.predict(&x);
    let second = model.predict(&x);
    assert_eq!(first.raw(), second.raw());
    assert_eq!(
        model.decision_function(&x).raw(),
        model.decision_function(&x).raw()
    );
}

#[test]
fn test_take_step_signed_exact() {
    // Deterministic paired step on two 1-D points x = 1 (y = +1) and
    // x = 2 (y = -1): curvature 1 + 4 - 2*2 = 1, numerator 2, so the
    // unconstrained step is 2, inside [0, C], split with opposite
    // signs.
    let data = mat_from_rows(&[fxv(&[1]), fxv(&[2])]);
    let mut model = SVC {
        c: Fx::from_int(10),
        tolerance: Fx::from_raw(10),
        max_iter: 100,
        kernels: get_kernel_matrix(&data),
        data,
        y: fxv(&[1, -1]),
        alpha: Vec::new(),
        b: Fx::zero(),
        beta: zeros(2),
    };
    let delta = model.take_step(0, 1);
    assert_eq!(delta.raw(), 2 * FX_SCALE);
    assert_eq!(model.beta[0].raw(), 2 * FX_SCALE);
    assert_eq!(model.beta[1].raw(), -2 * FX_SCALE);
}

#[test]
fn test_take_step_signed_zero_curvature() {
    // Identical rows make the curvature 0; the step is a no-op instead
    // of a division by zero.
    let data = mat_from_rows(&[fxv(&[1]), fxv(&[1])]);
    let mut model = SVC {
        c: Fx::from_int(10),
        tolerance: Fx::from_raw(10),
        max_iter: 100,
        kernels: get_kernel_matrix(&data),
        data,
        y: fxv(&[1, -1]),
        alpha: Vec::new(),
        b: Fx::zero(),
        beta: zeros(2),
    };
    let delta = model.take_step(0, 1);
    assert_eq!(delta.raw(), 0);
    assert_eq!(model.beta[0].raw(), 0);
    assert_eq!(model.beta[1].raw(), 0);
}

#[test]
fn test_fit_variant_a_fixed_pair_exact() {
    // With the initial pair fixed, one training iteration on x = 1
    // (y = +1), x = 2 (y = -1) with C = 10 is fully determined: the
    // step moves beta to [2, -2], alpha = beta / y = [2, 2], and the
    // bias read off the first interior coefficient is
    // 1 - (2*1*1 + 2*(-1)*2) = 3.  The signed coefficients sum to 0.
    let data = mat_from_rows(&[fxv(&[1]), fxv(&[2])]);
    let y = fxv(&[1, -1]);
    let mut model = SVC::new(Fx::from_int(10), Fx::from_raw(10), 1);
    assert_eq!(model.fit_with_initial_pair(&data, &y, 0, 1), Ok(()));
    assert_eq!(model.beta[0].raw(), 2 * FX_SCALE);
    assert_eq!(model.beta[1].raw(), -2 * FX_SCALE);
    assert_eq!(model.beta[0].raw() + model.beta[1].raw(), 0);
    assert_eq!(model.alpha[0].raw(), 2 * FX_SCALE);
    assert_eq!(model.alpha[1].raw(), 2 * FX_SCALE);
    assert_eq!(model.b.raw(), 3 * FX_SCALE);
}

#[test]
fn test_fit_variant_a_signed_box() {
    // The paired-heuristic variant keeps each beta_i in [-C, C] with
    // its sign tied to the label, and derives alpha_i = beta_i / y_i
    // inside [0, C], whatever pairs the random start led it through.
    let h = half();
    let rows = vec![
        fxr(&[-FX_SCALE]),
        fxr(&[-h]),
        fxr(&[h]),
        fxr(&[FX_SCALE]),
    ];
    let y = fxv(&[-1, -1, 1, 1]);
    let data = mat_from_rows(&rows);
    let c_units: i64 = 10;
    let mut model = SVC::new(Fx::from_int(c_units), Fx::from_raw(10), 50);
    assert_eq!(model.fit(&data, &y), Ok(()));
    assert_eq!(model.alpha.len(), 4);
    for k in 0..4 {
        let beta = model.beta[k].raw();
        let alpha = model.alpha[k].raw();
        if y[k].raw() > 0 {
            assert!(0 <= beta && beta <= c_units * FX_SCALE);
            assert_eq!(alpha, beta);
        } else {
            assert!(-c_units * FX_SCALE <= beta && beta <= 0);
            assert_eq!(alpha, -beta);
        }
        assert!(0 <= alpha && alpha <= c_units * FX_SCALE);
    }
    let beta_sum: i64 = model.beta.iter().map(|b| b.raw()).sum();
    assert_eq!(beta_sum, 0);
}

#[test]
fn test_cluster_distance_variants() {
    let criteria = [
        ClusterDistance::Single,
        ClusterDistance::Complete,
        ClusterDistance::Average,
    ];
    assert_eq!(criteria[0], ClusterDistance::Single);
    assert_ne!(criteria[1], criteria[2]);
}

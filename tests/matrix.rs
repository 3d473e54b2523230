use par_matrix::{
    dot_product, worker_for, Matrix, MatrixError, MsgInput, MsgOutput, Vector, NUM_THREADS,
};

fn sample_a() -> Matrix {
    Matrix::new(vec![1, 2, 3, 4, 5, 6], 2, 3)
}

fn sample_b() -> Matrix {
    Matrix::new(vec![1, 2, 3, 4, 5, 6], 3, 2)
}

#[test]
fn test_matrix_multiply() {
    let a = sample_a();
    let b = sample_b();
    let c = a.multiply(&b).unwrap();
    assert_eq!(c.columns(), 2);
    assert_eq!(c.rows(), 2);
    assert_eq!(c.data(), &vec![22, 28, 49, 64]);
    assert_eq!(
        c.to_debug_text(),
        "Matrix(rows=2, columns=2, {22  28 , 49  64 })"
    );
}

#[test]
fn test_a_can_not_multiply_b() {
    let a = Matrix::new(vec![1, 2, 3, 4, 5, 6], 2, 3);
    let b = Matrix::new(vec![1, 2, 3, 4], 2, 2);
    let c = a.multiply(&b);
    assert!(c.is_err());
}

#[test]
#[should_panic]
fn test_a_can_not_multiply_b_panic() {
    let a = Matrix::new(vec![1, 2, 3, 4, 5, 6], 2, 3);
    let b = Matrix::new(vec![1, 2, 3, 4], 2, 2);
    let _c = a.multiply(&b).unwrap();
}

#[test]
fn mismatch_is_dimension_error() {
    let a = Matrix::new(vec![1, 2, 3, 4, 5, 6], 2, 3);
    let b = Matrix::new(vec![1, 2, 3, 4], 2, 2);
    assert!(matches!(a.multiply(&b), Err(MatrixError::DimensionMismatch)));
    assert_eq!(a.data(), &vec![1, 2, 3, 4, 5, 6]);
    assert_eq!(b.data(), &vec![1, 2, 3, 4]);
}

#[test]
fn render_of_product() {
    let c = sample_a().multiply(&sample_b()).unwrap();
    assert_eq!(c.to_text(), "{22  28 , 49  64 }");
}

#[test]
fn render_negative_and_single_column() {
    let m = Matrix::new(vec![-7, 0, 105], 3, 1);
    assert_eq!(m.to_text(), "{-7 , 0 , 105 }");
    let e = Matrix::new(vec![], 0, 0);
    assert_eq!(e.to_text(), "{}");
    assert_eq!(e.to_debug_text(), "Matrix(rows=0, columns=0, {})");
}

#[test]
fn product_other_order() {
    let c = sample_b().multiply(&sample_a()).unwrap();
    assert_eq!(c.rows(), 3);
    assert_eq!(c.columns(), 3);
    assert_eq!(c.data(), &vec![9, 12, 15, 19, 26, 33, 29, 40, 51]);
}

#[test]
fn product_with_identity() {
    let a = Matrix::new(vec![3, -1, 4, 1, -5, 9], 3, 2);
    let id = Matrix::new(vec![1, 0, 0, 1], 2, 2);
    let c = a.multiply(&id).unwrap();
    assert_eq!(c.data(), &vec![3, -1, 4, 1, -5, 9]);
}

#[test]
fn product_with_empty_inner_dimension() {
    let a = Matrix::new(vec![], 2, 0);
    let b = Matrix::new(vec![], 0, 3);
    let c = a.multiply(&b).unwrap();
    assert_eq!(c.rows(), 2);
    assert_eq!(c.columns(), 3);
    assert_eq!(c.data(), &vec![0, 0, 0, 0, 0, 0]);
}

#[test]
fn product_overflow_is_an_error() {
    let a = Matrix::new(vec![i64::MAX, 2], 1, 2);
    let b = Matrix::new(vec![1, 1], 2, 1);
    assert!(matches!(a.multiply(&b), Err(MatrixError::Overflow)));
}

#[test]
fn product_is_deterministic() {
    let a = Matrix::new(vec![2, -3, 5, 7, 11, -13, 17, 19, 23], 3, 3);
    let b = Matrix::new(vec![1, 4, -9, 16, 25, 36, -49, 64, 81], 3, 3);
    let first = a.multiply(&b).unwrap();
    for _ in 0..5 {
        let again = a.multiply(&b).unwrap();
        assert_eq!(again.data(), first.data());
        assert_eq!(again.rows(), first.rows());
        assert_eq!(again.columns(), first.columns());
    }
}

#[test]
fn dot_product_values() {
    let r = dot_product(Vector::new(vec![1, 2, 3]), Vector::new(vec![4, 5, 6]));
    assert_eq!(r, Ok(32));
    let e = dot_product(Vector::new(vec![]), Vector::new(vec![]));
    assert_eq!(e, Ok(0));
}

#[test]
fn dot_product_length_mismatch() {
    let r = dot_product(Vector::new(vec![1, 2, 3]), Vector::new(vec![4, 5]));
    assert_eq!(r, Err(MatrixError::LengthMismatch));
}

#[test]
fn dot_product_overflow() {
    let r = dot_product(Vector::new(vec![i64::MAX]), Vector::new(vec![2]));
    assert_eq!(r, Err(MatrixError::Overflow));
    let s = dot_product(Vector::new(vec![i64::MAX, 1]), Vector::new(vec![1, 1]));
    assert_eq!(s, Err(MatrixError::Overflow));
    let t = dot_product(Vector::new(vec![i64::MAX, 1, -1]), Vector::new(vec![1, 1, 1]));
    assert_eq!(t, Err(MatrixError::Overflow));
    let u = dot_product(Vector::new(vec![i64::MAX, -1]), Vector::new(vec![1, 1]));
    assert_eq!(u, Ok(i64::MAX - 1));
}

#[test]
fn row_and_column_copies() {
    let a = sample_a();
    assert_eq!(a.row(1).elements, vec![4, 5, 6]);
    assert_eq!(a.column(2).elements, vec![3, 6]);
    let b = sample_b();
    assert_eq!(b.column(0).elements, vec![1, 3, 5]);
    assert_eq!(b.row(2).elements, vec![5, 6]);
}

#[test]
fn tasks_cover_each_cell_once() {
    let a = sample_a();
    let b = sample_b();
    let ts = a.tasks(&b);
    assert_eq!(ts.len(), 4);
    for (k, t) in ts.iter().enumerate() {
        assert_eq!(t.idx, k);
        assert_eq!(t.row.elements, a.row(k / 2).elements);
        assert_eq!(t.col.elements, b.column(k % 2).elements);
    }
    let mut seen = vec![0usize; 4];
    for t in ts.iter() {
        seen[t.idx] += 1;
    }
    assert_eq!(seen, vec![1, 1, 1, 1]);
}

#[test]
fn worker_assignment_is_round_robin() {
    assert_eq!(NUM_THREADS, 4);
    assert_eq!(worker_for(0), 0);
    assert_eq!(worker_for(5), 1);
    assert_eq!(worker_for(7), 3);
    assert_eq!(worker_for(8), 0);
    for idx in 0..40 {
        assert_eq!(worker_for(idx), idx % NUM_THREADS);
        assert_eq!(worker_for(idx), worker_for(idx));
    }
}

#[test]
fn mismatched_task_reports_error_instead_of_hanging() {
    let task = MsgInput::new(0, Vector::new(vec![1, 2, 3]), Vector::new(vec![1, 2]));
    let reply = task.compute();
    assert_eq!(reply, Err(MatrixError::LengthMismatch));
    let r = Matrix::collect(1, 1, vec![reply]);
    assert!(matches!(r, Err(MatrixError::LengthMismatch)));
}

#[test]
fn compute_answers_its_cell() {
    let task = MsgInput::new(3, Vector::new(vec![4, 5, 6]), Vector::new(vec![2, 4, 6]));
    assert_eq!(task.compute(), Ok(MsgOutput::new(3, 64)));
}

#[test]
fn collect_assembles_in_order() {
    let replies = vec![
        Ok(MsgOutput::new(0, 22)),
        Ok(MsgOutput::new(1, 28)),
        Ok(MsgOutput::new(2, 49)),
        Ok(MsgOutput::new(3, 64)),
    ];
    let m = Matrix::collect(2, 2, replies).unwrap();
    assert_eq!(m.rows(), 2);
    assert_eq!(m.columns(), 2);
    assert_eq!(m.data(), &vec![22, 28, 49, 64]);
}

#[test]
fn collect_reports_first_failure() {
    let replies = vec![
        Ok(MsgOutput::new(0, 1)),
        Err(MatrixError::Overflow),
        Err(MatrixError::WorkerLost),
    ];
    assert!(matches!(
        Matrix::collect(1, 3, replies),
        Err(MatrixError::Overflow)
    ));
    let lost = vec![Ok(MsgOutput::new(0, 1)), Err(MatrixError::WorkerLost)];
    assert!(matches!(
        Matrix::collect(2, 1, lost),
        Err(MatrixError::WorkerLost)
    ));
}

#[test]
fn collect_rejects_misplaced_reply() {
    let replies = vec![Ok(MsgOutput::new(1, 5)), Ok(MsgOutput::new(0, 6))];
    assert!(matches!(
        Matrix::collect(1, 2, replies),
        Err(MatrixError::MisplacedReply)
    ));
}

#[test]
fn collect_rejects_wrong_reply_count() {
    let replies = vec![Ok(MsgOutput::new(0, 5))];
    assert!(matches!(
        Matrix::collect(2, 1, replies),
        Err(MatrixError::ReplyCount)
    ));
}

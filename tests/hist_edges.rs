use information::{hist1d, hist2d, hist3d, HistError};

#[test]
fn hist1d_too_few_bins_is_out_of_range() {
    let arr = vec![0, 1, 2, 2];
    assert_eq!(hist1d(&arr, 2).err(), Some(HistError::OutOfRange(0)));
}

#[test]
fn hist1d_empty_input_gives_zero_counts() {
    let arr: Vec<usize> = vec![];
    assert_eq!(hist1d(&arr, 3).unwrap().to_vec(), vec![0, 0, 0]);
}

#[test]
fn hist1d_zero_bins() {
    let empty: Vec<usize> = vec![];
    assert_eq!(hist1d(&empty, 0).unwrap().nbins(), 0);
    assert_eq!(hist1d(&[0], 0).err(), Some(HistError::OutOfRange(0)));
}

#[test]
fn hist1d_counts_add_up_to_length() {
    let arr = vec![3, 0, 3, 3, 1, 0, 3];
    let counts = hist1d(&arr, 5).unwrap().to_vec();
    assert_eq!(counts, vec![2, 1, 0, 4, 0]);
    assert_eq!(counts.iter().sum::<usize>(), arr.len());
}

#[test]
fn hist2d_length_mismatch() {
    let a = vec![0, 1, 1];
    let b = vec![0, 1];
    assert_eq!(hist2d(&a, &b, 2, 2).err(), Some(HistError::LengthMismatch));
    assert_eq!(hist2d(&b, &a, 2, 2).err(), Some(HistError::LengthMismatch));
}

#[test]
fn hist2d_length_mismatch_comes_before_range() {
    let a = vec![9, 9, 9];
    let b = vec![9];
    assert_eq!(hist2d(&a, &b, 1, 1).err(), Some(HistError::LengthMismatch));
}

#[test]
fn hist2d_reports_the_dimension_at_fault() {
    let a = vec![0, 1, 5];
    let b = vec![0, 7, 0];
    assert_eq!(hist2d(&a, &b, 2, 2).err(), Some(HistError::OutOfRange(1)));
    assert_eq!(hist2d(&a, &b, 2, 8).err(), Some(HistError::OutOfRange(0)));
    assert_eq!(hist2d(&a, &b, 6, 2).err(), Some(HistError::OutOfRange(1)));
    assert!(hist2d(&a, &b, 6, 8).is_ok());
}

#[test]
fn hist2d_no_rows_keeps_columns() {
    let empty: Vec<usize> = vec![];
    let hist = hist2d(&empty, &empty, 0, 3).unwrap();
    assert_eq!(hist.shape(), (0, 3));
    assert!(hist.to_vec().is_empty());
}

#[test]
fn hist3d_length_mismatch() {
    let a = vec![0, 1];
    let b = vec![0, 1];
    let c = vec![0];
    assert_eq!(hist3d(&a, &b, &c, 2, 2, 2).err(), Some(HistError::LengthMismatch));
    assert_eq!(hist3d(&c, &a, &b, 2, 2, 2).err(), Some(HistError::LengthMismatch));
}

#[test]
fn hist3d_reports_the_dimension_at_fault() {
    let a = vec![0, 0, 3];
    let b = vec![0, 0, 0];
    let c = vec![0, 4, 0];
    assert_eq!(hist3d(&a, &b, &c, 2, 2, 2).err(), Some(HistError::OutOfRange(2)));
    assert_eq!(hist3d(&a, &b, &c, 2, 2, 5).err(), Some(HistError::OutOfRange(0)));
    assert_eq!(hist3d(&a, &b, &c, 4, 0, 5).err(), Some(HistError::OutOfRange(1)));
    assert!(hist3d(&a, &b, &c, 4, 1, 5).is_ok());
}

#[test]
fn hist3d_counts_each_triple() {
    let a = vec![1, 1, 0, 1];
    let b = vec![0, 0, 2, 0];
    let c = vec![1, 1, 0, 0];
    let hist = hist3d(&a, &b, &c, 2, 3, 2).unwrap();
    assert_eq!(hist.shape(), (2, 3, 2));
    assert_eq!(
        hist.to_vec(),
        vec![
            vec![vec![0, 0], vec![0, 0], vec![1, 0]],
            vec![vec![1, 2], vec![0, 0], vec![0, 0]],
        ]
    );
}

#[test]
fn hist2d_counts_add_up_to_length() {
    let a = vec![2, 0, 1, 2, 2, 0, 1];
    let b = vec![0, 0, 1, 1, 0, 1, 1];
    let cells = hist2d(&a, &b, 3, 2).unwrap().to_vec();
    assert_eq!(cells, vec![vec![1, 1], vec![0, 2], vec![2, 1]]);
    let total: usize = cells.iter().map(|row| row.iter().sum::<usize>()).sum();
    assert_eq!(total, a.len());
}

#[test]
fn hist3d_counts_add_up_to_length() {
    let a = vec![0, 1, 0, 1, 1];
    let b = vec![1, 1, 0, 0, 1];
    let c = vec![2, 0, 2, 1, 0];
    let hist = hist3d(&a, &b, &c, 2, 2, 3).unwrap();
    let total: usize = hist
        .to_vec()
        .iter()
        .flat_map(|plane| plane.iter())
        .map(|row| row.iter().sum::<usize>())
        .sum();
    assert_eq!(total, a.len());
    assert_eq!(hist.to_vec()[1][1], vec![2, 0, 0]);
}

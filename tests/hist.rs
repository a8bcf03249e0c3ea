use information::{hist1d, hist2d, hist3d, HistError};

#[test]
fn hist_test_1d_basic() {
    let arr = vec![0, 1, 1, 1, 2, 2];
    let hist = hist1d(&arr, 3).unwrap();
    assert_eq!(hist.to_vec(), vec![1, 3, 2]);
}

#[test]
fn hist_test_1d_missing() {
    let arr = vec![0, 1, 1, 1, 2, 2];
    let hist = hist1d(&arr, 4).unwrap();
    assert_eq!(hist.to_vec(), vec![1, 3, 2, 0]);
}

#[test]
#[should_panic]
fn test_1d_malform() {
    let arr = vec![0, 1, 1, 1, 2, 2];
    hist1d(&arr, 2).unwrap();
}

#[test]
fn hist_test_2d_basic() {
    let arr_a = vec![0, 1, 1, 1, 2, 2];
    let arr_b = vec![1, 0, 0, 1, 2, 3];
    let expected = vec![vec![0, 1, 0, 0], vec![2, 1, 0, 0], vec![0, 0, 1, 1]];
    let hist = hist2d(&arr_a, &arr_b, 3, 4).unwrap();
    assert_eq!(hist.shape(), (3, 4));
    assert_eq!(hist.to_vec(), expected);
}

#[test]
fn hist_test_2d_missing() {
    let arr_a = vec![0, 1, 1, 1, 2, 2];
    let arr_b = vec![1, 0, 0, 1, 2, 3];
    let expected = vec![
        vec![0, 1, 0, 0],
        vec![2, 1, 0, 0],
        vec![0, 0, 1, 1],
        vec![0, 0, 0, 0],
    ];
    let hist = hist2d(&arr_a, &arr_b, 4, 4).unwrap();
    assert_eq!(hist.shape(), (4, 4));
    assert_eq!(hist.to_vec(), expected);
}

#[test]
#[should_panic]
fn test_2d_malform_a() {
    let arr_a = vec![0, 1, 1, 1, 2, 2];
    let arr_b = vec![1, 0, 0, 1, 2, 3];
    hist2d(&arr_a, &arr_b, 2, 4).unwrap();
}

#[test]
#[should_panic]
fn test_2d_malform_b() {
    let arr_a = vec![0, 1, 1, 1, 2, 2];
    let arr_b = vec![1, 0, 0, 1, 2, 3];
    hist2d(&arr_a, &arr_b, 3, 3).unwrap();
}

#[test]
#[should_panic]
fn test_2d_unequal() {
    let arr_a = vec![0, 1, 1, 1, 2, 2];
    let arr_b = vec![1, 0, 0, 1, 2];
    hist2d(&arr_a, &arr_b, 3, 4).unwrap();
}

#[test]
fn hist_test_3d_basic() {
    let arr_a = vec![0, 1, 1];
    let arr_b = vec![0, 0, 1];
    let arr_c = vec![1, 1, 1];
    let expected = vec![
        vec![vec![0, 1], vec![0, 0]],
        vec![vec![0, 1], vec![0, 1]],
    ];
    let hist = hist3d(&arr_a, &arr_b, &arr_c, 2, 2, 2).unwrap();
    assert_eq!(hist.shape(), (2, 2, 2));
    assert_eq!(hist.to_vec(), expected);
}

#[test]
fn test_3d_missing() {
    let arr_a = vec![0, 1, 1];
    let arr_b = vec![0, 0, 1];
    let arr_c = vec![1, 1, 1];
    let expected = vec![
        vec![vec![0, 1], vec![0, 0]],
        vec![vec![0, 1], vec![0, 1]],
        vec![vec![0, 0], vec![0, 0]],
    ];
    let hist = hist3d(&arr_a, &arr_b, &arr_c, 3, 2, 2).unwrap();
    assert_eq!(hist.shape(), (3, 2, 2));
    assert_eq!(hist.to_vec(), expected);
}

#[test]
#[should_panic]
fn test_3d_unequal_a() {
    let arr_a = vec![0, 1];
    let arr_b = vec![0, 0, 1];
    let arr_c = vec![1, 1, 1];
    hist3d(&arr_a, &arr_b, &arr_c, 2, 2, 2).unwrap();
}

#[test]
#[should_panic]
fn test_3d_unequal_b() {
    let arr_a = vec![0, 1, 1];
    let arr_b = vec![0, 0];
    let arr_c = vec![1, 1, 1];
    hist3d(&arr_a, &arr_b, &arr_c, 2, 2, 2).unwrap();
}

#[test]
#[should_panic]
fn test_3d_unequal_c() {
    let arr_a = vec![0, 1, 1];
    let arr_b = vec![0, 0, 1];
    let arr_c = vec![1, 1];
    hist3d(&arr_a, &arr_b, &arr_c, 2, 2, 2).unwrap();
}

#[test]
#[should_panic]
fn test_3d_malform_a() {
    let arr_a = vec![0, 1, 1];
    let arr_b = vec![0, 0, 1];
    let arr_c = vec![1, 1, 1];
    hist3d(&arr_a, &arr_b, &arr_c, 1, 2, 2).unwrap();
}

#[test]
#[should_panic]
fn test_3d_malform_b() {
    let arr_a = vec![0, 1, 1];
    let arr_b = vec![0, 0, 1];
    let arr_c = vec![1, 1, 1];
    hist3d(&arr_a, &arr_b, &arr_c, 2, 1, 2).unwrap();
}

#[test]
#[should_panic]
fn test_3d_malform_c() {
    let arr_a = vec![0, 1, 1];
    let arr_b = vec![0, 0, 1];
    let arr_c = vec![1, 1, 1];
    hist3d(&arr_a, &arr_b, &arr_c, 2, 2, 1).unwrap();
}

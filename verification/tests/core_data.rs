use ferrite_nn::{first_width_mismatch, idx_check_pair, one_hot_flags, parse_class_index,
    parse_csv_row, row_split_point, shuffle_indices, ClassIndexError, IdxError, LabelMode,
    RowShapeError};

#[test]
fn shuffle_is_a_permutation() {
    for n in [0usize, 1, 2, 10, 100] {
        let mut r = shuffle_indices(n);
        assert_eq!(r.len(), n);
        r.sort();
        let expected: Vec<usize> = (0..n).collect();
        assert_eq!(r, expected);
    }
}

#[test]
fn csv_row_splits_plain_cells() {
    assert_eq!(parse_csv_row("a,b,c"), vec!["a", "b", "c"]);
    assert_eq!(parse_csv_row(""), vec![""]);
    assert_eq!(parse_csv_row("x,"), vec!["x", ""]);
    assert_eq!(parse_csv_row(",x"), vec!["", "x"]);
}

#[test]
fn csv_row_honours_quotes() {
    assert_eq!(parse_csv_row("\"a,b\",c"), vec!["a,b", "c"]);
    assert_eq!(parse_csv_row("\"he said \"\"hi\"\"\",2"), vec!["he said \"hi\"", "2"]);
    assert_eq!(parse_csv_row("plain,\"\",end"), vec!["plain", "", "end"]);
}

#[test]
fn row_split_point_per_label_mode() {
    assert_eq!(row_split_point(3, LabelMode::ClassIndex { n_classes: 4 }), Ok(2));
    assert_eq!(
        row_split_point(1, LabelMode::ClassIndex { n_classes: 4 }),
        Err(RowShapeError::TooFewColumnsForClassIndex)
    );
    assert_eq!(row_split_point(5, LabelMode::OneHot { n_label_cols: 2 }), Ok(3));
    assert_eq!(
        row_split_point(2, LabelMode::OneHot { n_label_cols: 2 }),
        Err(RowShapeError::TooFewColumnsForOneHot)
    );
}

#[test]
fn class_index_parses_and_bounds() {
    assert_eq!(parse_class_index("2", 3), Ok(2));
    assert_eq!(parse_class_index("0", 3), Ok(0));
    assert_eq!(parse_class_index("3", 3), Err(ClassIndexError::OutOfRange));
    assert_eq!(parse_class_index("x", 3), Err(ClassIndexError::NotAnInteger));
    assert_eq!(parse_class_index("", 3), Err(ClassIndexError::NotAnInteger));
    assert_eq!(parse_class_index("-1", 3), Err(ClassIndexError::NotAnInteger));
}

#[test]
fn one_hot_marks_exactly_one_position() {
    assert_eq!(one_hot_flags(4, 2), vec![false, false, true, false]);
    assert_eq!(one_hot_flags(1, 0), vec![true]);
}

#[test]
fn width_mismatch_finds_first_bad_row() {
    assert_eq!(first_width_mismatch(&vec![3, 3, 3]), None);
    assert_eq!(first_width_mismatch(&vec![3, 3, 2, 2]), Some(2));
    assert_eq!(first_width_mismatch(&vec![]), None);
    assert_eq!(first_width_mismatch(&vec![5]), None);
}

fn idx_image_header(n: u32, rows: u32, cols: u32) -> Vec<u8> {
    let mut v = vec![0u8, 0, 8, 3];
    v.extend_from_slice(&n.to_be_bytes());
    v.extend_from_slice(&rows.to_be_bytes());
    v.extend_from_slice(&cols.to_be_bytes());
    v
}

fn idx_label_header(n: u32) -> Vec<u8> {
    let mut v = vec![0u8, 0, 8, 1];
    v.extend_from_slice(&n.to_be_bytes());
    v
}

#[test]
fn idx_pair_accepts_a_valid_tiny_dataset() {
    let mut image = idx_image_header(2, 2, 2);
    image.extend_from_slice(&[10, 20, 30, 40, 50, 60, 70, 80]);
    let mut label = idx_label_header(2);
    label.extend_from_slice(&[0, 1]);
    let dims = idx_check_pair(&image, &label, 2).expect("valid pair");
    assert_eq!((dims.n_items, dims.rows, dims.cols), (2, 2, 2));
}

#[test]
fn idx_pair_rejects_bad_image_headers() {
    assert_eq!(idx_check_pair(&[0, 0, 8], &[], 2), Err(IdxError::ImageTooShort));
    let mut bad_magic = idx_image_header(1, 1, 1);
    bad_magic[0] = 7;
    bad_magic.push(0);
    assert_eq!(idx_check_pair(&bad_magic, &[], 2), Err(IdxError::ImageBadMagic));
    let mut bad_dtype = idx_image_header(1, 1, 1);
    bad_dtype[2] = 9;
    bad_dtype.push(0);
    assert_eq!(idx_check_pair(&bad_dtype, &[], 2), Err(IdxError::ImageBadDtype));
    let mut bad_dims = idx_image_header(1, 1, 1);
    bad_dims[3] = 1;
    bad_dims.push(0);
    assert_eq!(idx_check_pair(&bad_dims, &[], 2), Err(IdxError::ImageBadDims));
}

#[test]
fn idx_pair_rejects_truncated_or_mismatched_data() {
    let image = idx_image_header(2, 2, 2);
    assert_eq!(idx_check_pair(&image, &[], 2), Err(IdxError::ImageDataTruncated));

    let mut image = idx_image_header(1, 1, 1);
    image.push(9);
    assert_eq!(idx_check_pair(&image, &[0, 0], 2), Err(IdxError::LabelTooShort));

    let mut wrong_count = idx_label_header(3);
    wrong_count.extend_from_slice(&[0, 1, 0]);
    assert_eq!(idx_check_pair(&image, &wrong_count, 2), Err(IdxError::CountMismatch));

    let short_label = idx_label_header(1);
    assert_eq!(idx_check_pair(&image, &short_label, 2), Err(IdxError::LabelDataTruncated));

    let mut bad_label_magic = idx_label_header(1);
    bad_label_magic[1] = 1;
    bad_label_magic.push(0);
    assert_eq!(idx_check_pair(&image, &bad_label_magic, 2), Err(IdxError::LabelBadMagic));

    let mut bad_label_dtype = idx_label_header(1);
    bad_label_dtype[2] = 7;
    bad_label_dtype.push(0);
    assert_eq!(idx_check_pair(&image, &bad_label_dtype, 2), Err(IdxError::LabelBadDtype));

    let mut bad_label_dims = idx_label_header(1);
    bad_label_dims[3] = 3;
    bad_label_dims.push(0);
    assert_eq!(idx_check_pair(&image, &bad_label_dims, 2), Err(IdxError::LabelBadDims));
}

#[test]
fn idx_pair_rejects_bad_classes() {
    let mut image = idx_image_header(2, 1, 1);
    image.extend_from_slice(&[9, 9]);
    let mut label = idx_label_header(2);
    label.extend_from_slice(&[0, 1]);
    assert_eq!(idx_check_pair(&image, &label, 1), Err(IdxError::TooFewClasses));
    let mut label2 = idx_label_header(2);
    label2.extend_from_slice(&[0, 5]);
    assert_eq!(
        idx_check_pair(&image, &label2, 3),
        Err(IdxError::LabelOutOfRange { index: 1, class: 5 })
    );
}

#[test]
fn idx_pair_rejects_overflowing_headers() {
    // Item and pixel counts near u32::MAX overflow the declared length.
    let image = idx_image_header(u32::MAX, u32::MAX, u32::MAX);
    assert_eq!(idx_check_pair(&image, &[], 2), Err(IdxError::DataLengthOverflow));
}

use slicenii::common::Direction;
use slicenii::naming::extract_number_from_filename;
use slicenii::naming::order_by_number;
use slicenii::naming::plane_pattern;
use slicenii::naming::slice_file_name;
use slicenii::naming::slices_dir_name;
use slicenii::naming::sorted_places;
use slicenii::naming::vol_file_name;
use slicenii::naming::vols_dir_name;

#[test]
fn slice_file_name_counts_from_one() {
    assert_eq!(slice_file_name("scan", &Direction::Z, 0, false), "scan_axis-2_slice-001.nii");
    assert_eq!(slice_file_name("scan", &Direction::X, 9, false), "scan_axis-0_slice-010.nii");
    assert_eq!(slice_file_name("scan", &Direction::Y, 98, false), "scan_axis-1_slice-099.nii");
    assert_eq!(slice_file_name("scan", &Direction::Y, 99, false), "scan_axis-1_slice-100.nii");
}

#[test]
fn slice_file_name_marks_padded_planes() {
    assert_eq!(
        slice_file_name("sub-01_T1w", &Direction::Z, 29, true),
        "sub-01_T1w_axis-2_slice-padded-030.nii"
    );
}

#[test]
fn slice_file_name_grows_beyond_three_digits() {
    assert_eq!(slice_file_name("s", &Direction::X, 999, false), "s_axis-0_slice-1000.nii");
    assert_eq!(slice_file_name("s", &Direction::X, 12344, false), "s_axis-0_slice-12345.nii");
}

#[test]
fn slice_file_name_of_the_last_position() {
    let name = slice_file_name("s", &Direction::X, usize::MAX, false);
    let expected = format!("s_axis-0_slice-{}.nii", usize::MAX as u128 + 1);
    assert_eq!(name, expected);
}

#[test]
fn directory_names() {
    assert_eq!(slices_dir_name("scan"), "scan_slices");
    assert_eq!(vols_dir_name("scan"), "scan_vols");
}

#[test]
fn vol_file_name_counts_from_one() {
    assert_eq!(vol_file_name("bold", 0), "bold_vol-001.nii");
    assert_eq!(vol_file_name("bold", 119), "bold_vol-120.nii");
}

#[test]
fn plane_pattern_joins_directory_and_prefix() {
    assert_eq!(plane_pattern("./out", "scan"), "./out/scan*.nii");
    assert_eq!(plane_pattern("./", "*"), ".//**.nii");
}

#[test]
fn number_is_spelled_by_all_digits_in_order() {
    assert_eq!(extract_number_from_filename("scan_axis-2_slice-010.nii"), 2010);
    assert_eq!(extract_number_from_filename("a1b2c3"), 123);
    assert_eq!(extract_number_from_filename("007"), 7);
}

#[test]
fn number_of_a_name_without_digits_is_zero() {
    assert_eq!(extract_number_from_filename("scan.nii"), 0);
    assert_eq!(extract_number_from_filename(""), 0);
}

#[test]
fn number_ignores_digits_of_other_scripts() {
    assert_eq!(extract_number_from_filename("x\u{0663}4\u{ff15}y"), 4);
}

#[test]
fn number_beyond_128_bits_is_zero() {
    let max = u128::MAX.to_string();
    assert_eq!(extract_number_from_filename(&max), u128::MAX);
    assert_eq!(extract_number_from_filename(&format!("0{}", max)), u128::MAX);
    assert_eq!(extract_number_from_filename("340282366920938463463374607431768211456"), 0);
    assert_eq!(extract_number_from_filename(&format!("{}0", max)), 0);
    assert_eq!(extract_number_from_filename(&format!("{}0x1", max)), 0);
}

#[test]
fn number_agrees_with_parsing_the_digits() {
    for name in ["s_axis-1_slice-padded-120.nii", "9", "x", "18446744073709551616"] {
        let digits: String = name.chars().filter(|c| c.is_digit(10)).collect();
        assert_eq!(extract_number_from_filename(name), digits.parse::<u128>().unwrap_or(0));
    }
}

#[test]
fn sorted_places_orders_by_key() {
    assert_eq!(sorted_places(&vec![30, 10, 20]), vec![1, 2, 0]);
    assert_eq!(sorted_places(&vec![]), Vec::<usize>::new());
    assert_eq!(sorted_places(&vec![5]), vec![0]);
}

#[test]
fn sorted_places_keeps_equal_keys_in_place_order() {
    assert_eq!(sorted_places(&vec![2, 1, 2, 1, 0, 2]), vec![4, 1, 3, 0, 2, 5]);
}

#[test]
fn order_by_number_recovers_the_positions() {
    let names: Vec<String> = ["s_axis-2_slice-010.nii", "s_axis-2_slice-002.nii", "s_axis-2_slice-001.nii", "s_axis-2_slice-100.nii"]
        .iter()
        .map(|s| s.to_string())
        .collect();
    assert_eq!(order_by_number(&names), vec![2, 1, 0, 3]);
}

#[test]
fn order_by_number_reads_written_names_back_in_order() {
    let mut names: Vec<String> = Vec::new();
    for index in (0..120).rev() {
        names.push(slice_file_name("scan", &Direction::Y, index, true));
    }
    let order = order_by_number(&names);
    for (position, place) in order.iter().enumerate() {
        assert_eq!(names[*place], slice_file_name("scan", &Direction::Y, position, true));
    }
}

#[test]
fn order_by_number_puts_names_without_digits_first() {
    let names: Vec<String> = ["b3", "none", "a1", "other"].iter().map(|s| s.to_string()).collect();
    assert_eq!(order_by_number(&names), vec![1, 3, 2, 0]);
}

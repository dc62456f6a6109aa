use slicenii::combining::checked_combine_slices;
use slicenii::combining::checked_combine_volumes;
use slicenii::combining::combine_slices;
use slicenii::combining::combine_volumes;
use slicenii::combining::has_tags_in_range;
use slicenii::common::Direction;
use slicenii::common::Slice3D;
use slicenii::error::SliceError;
use slicenii::grid::Grid;
use slicenii::shape::contains;
use slicenii::shape::fits;
use slicenii::shape::same_shape;
use slicenii::slicing::checked_slice_array_pad;
use slicenii::slicing::slice_array;
use slicenii::slicing::slice_array_pad;
use slicenii::slicing::split_vols;

/// A volume whose cell at (x, y, z) holds the bits of a sample that names
/// its own position.
fn numbered(shape: [usize; 3]) -> Grid {
    let mut g = Grid::zeros(&shape.to_vec()).unwrap();
    for x in 0..shape[0] {
        for y in 0..shape[1] {
            for z in 0..shape[2] {
                let sample = (x * 10000 + y * 100 + z) as f64 + 0.25;
                assert!(g.set(&vec![x, y, z], sample.to_bits()));
            }
        }
    }
    g
}

fn sample_at(g: &Grid, idx: [usize; 3]) -> f64 {
    f64::from_bits(g.get(&idx.to_vec()).unwrap())
}

fn same_cells(a: &Grid, b: &Grid) -> bool {
    let shape = a.shape();
    if shape != b.shape() {
        return false;
    }
    for x in 0..shape[0] {
        for y in 0..shape[1] {
            for z in 0..shape[2] {
                if a.get(&vec![x, y, z]) != b.get(&vec![x, y, z]) {
                    return false;
                }
            }
        }
    }
    true
}

#[test]
fn zeros_has_shape_and_zero_cells() {
    let g = Grid::zeros(&vec![2, 3, 4]).unwrap();
    assert_eq!(g.shape(), vec![2, 3, 4]);
    assert_eq!(g.ndim(), 3);
    assert_eq!(g.get(&vec![1, 2, 3]), Some(0));
    assert_eq!(g.get(&vec![2, 0, 0]), None);
    assert_eq!(g.get(&vec![0, 0]), None);
}

#[test]
fn zeros_refuses_a_shape_too_large() {
    assert!(Grid::zeros(&vec![usize::MAX, 2]).is_none());
    assert!(Grid::zeros(&vec![usize::MAX / 2, 0]).is_none());
}

#[test]
fn set_writes_one_cell() {
    let mut g = Grid::zeros(&vec![2, 2, 2]).unwrap();
    assert!(g.set(&vec![1, 0, 1], 7));
    assert!(!g.set(&vec![1, 0, 2], 9));
    assert_eq!(g.get(&vec![1, 0, 1]), Some(7));
    assert_eq!(g.get(&vec![1, 0, 0]), Some(0));
    assert_eq!(g.get(&vec![0, 0, 1]), Some(0));
}

#[test]
fn slice_gives_one_plane_per_position() {
    let v = numbered([3, 4, 5]);
    for (axis, extent) in [(Direction::X, 3), (Direction::Y, 4), (Direction::Z, 5)] {
        let planes = slice_array(&v, &axis).unwrap();
        assert_eq!(planes.len(), extent);
        for (i, p) in planes.iter().enumerate() {
            assert_eq!(p.index, i);
        }
    }
}

#[test]
fn slice_along_y_keeps_the_cross_section() {
    let v = numbered([3, 4, 5]);
    let planes = slice_array(&v, &Direction::Y).unwrap();
    let p = &planes[2];
    assert_eq!(p.slice.shape(), vec![3, 1, 5]);
    for x in 0..3 {
        for z in 0..5 {
            assert_eq!(sample_at(&p.slice, [x, 0, z]), sample_at(&v, [x, 2, z]));
        }
    }
    assert_eq!(sample_at(&p.slice, [1, 0, 3]), 10203.25);
}

#[test]
fn slice_refuses_a_block_that_is_not_a_volume() {
    let flat = Grid::zeros(&vec![4, 4]).unwrap();
    assert_eq!(slice_array(&flat, &Direction::X).unwrap_err(), SliceError::DimensionalityError);
    let series = Grid::zeros(&vec![2, 2, 2, 2]).unwrap();
    assert_eq!(
        slice_array_pad(&series, &Direction::Z, 4).unwrap_err(),
        SliceError::DimensionalityError
    );
}

#[test]
fn padded_slice_repeats_the_cross_section() {
    let v = numbered([3, 4, 5]);
    let planes = slice_array_pad(&v, &Direction::Z, 4).unwrap();
    assert_eq!(planes.len(), 5);
    let p = &planes[3];
    assert_eq!(p.index, 3);
    assert_eq!(p.slice.shape(), vec![3, 4, 4]);
    for x in 0..3 {
        for y in 0..4 {
            for copy in 0..4 {
                assert_eq!(sample_at(&p.slice, [x, y, copy]), sample_at(&v, [x, y, 3]));
            }
        }
    }
}

#[test]
fn padding_of_one_is_plain_slicing() {
    let v = numbered([2, 3, 4]);
    let plain = slice_array(&v, &Direction::X).unwrap();
    let padded = slice_array_pad(&v, &Direction::X, 1).unwrap();
    assert_eq!(plain.len(), padded.len());
    for (a, b) in plain.iter().zip(padded.iter()) {
        assert_eq!(a.index, b.index);
        assert!(same_cells(&a.slice, &b.slice));
    }
}

#[test]
fn round_trip_gives_the_volume_back() {
    let v = numbered([3, 4, 5]);
    for axis in [Direction::X, Direction::Y, Direction::Z] {
        let planes = slice_array(&v, &axis).unwrap();
        let back = combine_slices(&planes, &axis, &v).unwrap();
        assert!(same_cells(&back, &v));
    }
}

#[test]
fn round_trip_keeps_every_bit() {
    let mut v = Grid::zeros(&vec![2, 1, 2]).unwrap();
    let odd = [f64::NAN.to_bits() | 1, (-0.0f64).to_bits(), f64::MIN_POSITIVE.to_bits(), u64::MAX];
    v.set(&vec![0, 0, 0], odd[0]);
    v.set(&vec![0, 0, 1], odd[1]);
    v.set(&vec![1, 0, 0], odd[2]);
    v.set(&vec![1, 0, 1], odd[3]);
    let planes = slice_array(&v, &Direction::Z).unwrap();
    let back = combine_slices(&planes, &Direction::Z, &v).unwrap();
    assert_eq!(back.get(&vec![0, 0, 0]), Some(odd[0]));
    assert_eq!(back.get(&vec![0, 0, 1]), Some(odd[1]));
    assert_eq!(back.get(&vec![1, 0, 0]), Some(odd[2]));
    assert_eq!(back.get(&vec![1, 0, 1]), Some(odd[3]));
}

#[test]
fn padding_cancels_on_reassembly() {
    let v = numbered([3, 4, 5]);
    for axis in [Direction::X, Direction::Y, Direction::Z] {
        for padding in [1usize, 2, 3, 4] {
            let planes = slice_array_pad(&v, &axis, padding).unwrap();
            let back = combine_slices(&planes, &axis, &v).unwrap();
            assert!(same_cells(&back, &v));
        }
    }
}

#[test]
fn combine_takes_the_middle_copy() {
    let reference = Grid::zeros(&vec![1, 1, 1]).unwrap();
    let mut thick = Grid::zeros(&vec![1, 1, 4]).unwrap();
    for copy in 0..4 {
        thick.set(&vec![0, 0, copy], 100 + copy as u64);
    }
    let planes = vec![Slice3D::new(thick, 0)];
    let back = combine_slices(&planes, &Direction::Z, &reference).unwrap();
    assert_eq!(back.get(&vec![0, 0, 0]), Some(102));
}

#[test]
fn combine_writes_each_plane_at_its_tag() {
    let v = numbered([2, 2, 3]);
    let mut planes = slice_array(&v, &Direction::Z).unwrap();
    planes.reverse();
    assert_eq!(planes[0].index, 2);
    let back = combine_slices(&planes, &Direction::Z, &v).unwrap();
    assert!(same_cells(&back, &v));
}

#[test]
fn combine_leaves_uncovered_positions_zero() {
    let v = numbered([2, 2, 2]);
    let planes = slice_array(&v, &Direction::X).unwrap();
    let first = slice_array(&v, &Direction::X).unwrap().remove(0);
    let twice = vec![first, Slice3D::new(planes.into_iter().next().unwrap().slice, 0)];
    let back = combine_slices(&twice, &Direction::X, &v).unwrap();
    assert_eq!(sample_at(&back, [0, 1, 1]), sample_at(&v, [0, 1, 1]));
    assert_eq!(back.get(&vec![1, 0, 0]), Some(0));
    assert_eq!(back.get(&vec![1, 1, 1]), Some(0));
}

#[test]
fn combine_fails_on_a_count_mismatch() {
    let reference = Grid::zeros(&vec![4, 4, 30]).unwrap();
    let mut planes = Vec::new();
    for i in 0..29 {
        planes.push(Slice3D::new(Grid::zeros(&vec![4, 4, 1]).unwrap(), i));
    }
    assert_eq!(
        combine_slices(&planes, &Direction::Z, &reference).unwrap_err(),
        SliceError::CountMismatchError
    );
    assert_eq!(reference.get(&vec![0, 0, 0]), Some(0));
}

#[test]
fn combine_refuses_a_plane_of_another_cross_section() {
    let reference = Grid::zeros(&vec![2, 2, 1]).unwrap();
    let planes = vec![Slice3D::new(Grid::zeros(&vec![2, 3, 1]).unwrap(), 0)];
    assert_eq!(
        combine_slices(&planes, &Direction::Z, &reference).unwrap_err(),
        SliceError::DimensionalityError
    );
    let empty = vec![Slice3D::new(Grid::zeros(&vec![2, 2, 0]).unwrap(), 0)];
    assert_eq!(
        combine_slices(&empty, &Direction::Z, &reference).unwrap_err(),
        SliceError::DimensionalityError
    );
}

#[test]
fn combine_refuses_a_reference_that_is_not_a_volume() {
    let reference = Grid::zeros(&vec![2, 2]).unwrap();
    let planes: Vec<Slice3D> = Vec::new();
    assert_eq!(
        combine_slices(&planes, &Direction::X, &reference).unwrap_err(),
        SliceError::DimensionalityError
    );
}

#[test]
fn split_and_stack_give_the_series_back() {
    let mut series = Grid::zeros(&vec![2, 2, 2, 3]).unwrap();
    let mut n = 1u64;
    for x in 0..2 {
        for y in 0..2 {
            for z in 0..2 {
                for t in 0..3 {
                    series.set(&vec![x, y, z, t], n);
                    n += 1;
                }
            }
        }
    }
    let vols = split_vols(&series).unwrap();
    assert_eq!(vols.len(), 3);
    assert_eq!(vols[1].index, 1);
    assert_eq!(vols[1].vol.shape(), vec![2, 2, 2]);
    assert_eq!(vols[1].vol.get(&vec![1, 0, 1]), series.get(&vec![1, 0, 1, 1]));
    let reference = Grid::zeros(&vec![2, 2, 2]).unwrap();
    let tagged: Vec<Slice3D> = vols.into_iter().map(|v| Slice3D::new(v.vol, v.index)).collect();
    let back = combine_volumes(&tagged, &reference).unwrap();
    assert_eq!(back.shape(), vec![2, 2, 2, 3]);
    for x in 0..2 {
        for y in 0..2 {
            for z in 0..2 {
                for t in 0..3 {
                    assert_eq!(back.get(&vec![x, y, z, t]), series.get(&vec![x, y, z, t]));
                }
            }
        }
    }
}

#[test]
fn split_refuses_a_volume() {
    let v = Grid::zeros(&vec![2, 2, 2]).unwrap();
    assert_eq!(split_vols(&v).unwrap_err(), SliceError::DimensionalityError);
}

#[test]
fn stack_refuses_a_volume_of_another_shape() {
    let reference = Grid::zeros(&vec![2, 2, 2]).unwrap();
    let vols = vec![Slice3D::new(Grid::zeros(&vec![2, 2, 1]).unwrap(), 0)];
    assert_eq!(combine_volumes(&vols, &reference).unwrap_err(), SliceError::DimensionalityError);
}

#[test]
fn checked_padding_refuses_what_cannot_be_cut() {
    let v = numbered([2, 2, 2]);
    assert!(checked_slice_array_pad(&v, &Direction::X, 0).is_none());
    assert!(checked_slice_array_pad(&v, &Direction::X, usize::MAX).is_none());
    let planes = checked_slice_array_pad(&v, &Direction::X, 3).unwrap().unwrap();
    assert_eq!(planes.len(), 2);
    assert_eq!(planes[1].slice.shape(), vec![3, 2, 2]);
    assert_eq!(sample_at(&planes[1].slice, [2, 1, 0]), sample_at(&v, [1, 1, 0]));
}

#[test]
fn checked_padding_of_an_empty_volume_cuts_nothing() {
    let v = Grid::zeros(&vec![0, 2, 2]).unwrap();
    let planes =
        checked_slice_array_pad(&v, &Direction::X, usize::MAX).unwrap().unwrap();
    assert!(planes.is_empty());
}

#[test]
fn checked_combine_refuses_a_tag_out_of_range() {
    let v = numbered([2, 2, 2]);
    let mut planes = slice_array(&v, &Direction::Z).unwrap();
    assert!(has_tags_in_range(&planes));
    planes[1].index = 2;
    assert!(!has_tags_in_range(&planes));
    assert!(checked_combine_slices(&planes, &Direction::Z, &v).is_none());
    assert!(checked_combine_volumes(&planes, &v).is_none());
}

#[test]
fn checked_combine_gives_what_combine_gives() {
    let v = numbered([3, 2, 2]);
    let planes = slice_array_pad(&v, &Direction::X, 2).unwrap();
    let back = checked_combine_slices(&planes, &Direction::X, &v)
        .unwrap()
        .unwrap();
    assert!(same_cells(&back, &v));
    let short = slice_array(&numbered([2, 2, 2]), &Direction::X).unwrap();
    assert_eq!(
        checked_combine_slices(&short, &Direction::X, &v).unwrap().unwrap_err(),
        SliceError::CountMismatchError
    );
}

#[test]
fn checked_stack_gives_what_stack_gives() {
    let reference = Grid::zeros(&vec![1, 1, 2]).unwrap();
    let mut first = Grid::zeros(&vec![1, 1, 2]).unwrap();
    first.set(&vec![0, 0, 1], 11);
    let mut second = Grid::zeros(&vec![1, 1, 2]).unwrap();
    second.set(&vec![0, 0, 0], 22);
    let vols = vec![Slice3D::new(second, 1), Slice3D::new(first, 0)];
    let series = checked_combine_volumes(&vols, &reference).unwrap().unwrap();
    assert_eq!(series.shape(), vec![1, 1, 2, 2]);
    assert_eq!(series.get(&vec![0, 0, 1, 0]), Some(11));
    assert_eq!(series.get(&vec![0, 0, 0, 1]), Some(22));
    assert_eq!(series.get(&vec![0, 0, 0, 0]), Some(0));
    assert_eq!(series.get(&vec![0, 0, 1, 1]), Some(0));
}

#[test]
fn shapes_that_fit_and_indices_inside() {
    assert!(fits(&vec![]));
    assert!(fits(&vec![256, 256, 128]));
    assert!(fits(&vec![0, 1000]));
    assert!(fits(&vec![isize::MAX as usize / 8]));
    assert!(!fits(&vec![isize::MAX as usize / 8 + 1]));
    assert!(!fits(&vec![1 << 31, 1 << 31, 4]));
    assert!(!fits(&vec![usize::MAX, 0, usize::MAX]));
    assert!(contains(&vec![2, 3], &vec![1, 2]));
    assert!(!contains(&vec![2, 3], &vec![2, 0]));
    assert!(!contains(&vec![2, 3], &vec![1]));
    assert!(contains(&vec![], &vec![]));
    assert!(same_shape(&vec![1, 2], &vec![1, 2]));
    assert!(!same_shape(&vec![1, 2], &vec![1, 3]));
    assert!(!same_shape(&vec![1, 2], &vec![1, 2, 1]));
}

#[test]
fn a_block_without_axes_has_one_cell() {
    let mut point = Grid::zeros(&vec![]).unwrap();
    assert_eq!(point.ndim(), 0);
    assert_eq!(point.get(&vec![]), Some(0));
    assert!(point.set(&vec![], 5));
    assert_eq!(point.get(&vec![]), Some(5));
    assert_eq!(point.get(&vec![0]), None);
}

#[test]
fn a_volume_with_an_empty_axis_has_no_planes_along_it() {
    let empty = Grid::zeros(&vec![2, 0, 2]).unwrap();
    assert!(slice_array(&empty, &Direction::Y).unwrap().is_empty());
    let across = slice_array(&empty, &Direction::X).unwrap();
    assert_eq!(across.len(), 2);
    assert_eq!(across[0].slice.shape(), vec![1, 0, 2]);
    let back = combine_slices(&across, &Direction::X, &empty).unwrap();
    assert_eq!(back.shape(), vec![2, 0, 2]);
}

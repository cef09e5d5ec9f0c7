use fluids::gpu::{Binding, Buffer, GridOf, ScanOf};
use fluids::sim_gpu::{
    gather_group, grid_group, scan_group, solver_group, Pass, Slot, PARAM_BYTES,
};

#[test]
fn passes_name_their_functions() {
    for (pass, name) in [
        (Pass::Impulse, "apply_impulse"),
        (Pass::Prefix, "prefix_sum"),
        (Pass::SortCells, "sort_cells"),
        (Pass::Neighbors, "find_neighbors"),
        (Pass::ReduceNearest, "reduce_nearest"),
        (Pass::GatherScalars, "gather_scalars"),
    ] {
        assert_eq!(pass.entry(), name);
    }
    let mut names: Vec<&str> = Pass::all().iter().map(|p| p.entry()).collect();
    names.sort();
    names.dedup();
    assert_eq!(names.len(), 21);
}

#[test]
fn passes_are_listed_in_the_order_of_their_kernels() {
    for (k, pass) in Pass::all().into_iter().enumerate() {
        assert_eq!(pass as usize, k);
    }
    assert_eq!((Pass::Impulse as usize, Pass::GatherScalars as usize), (0, 20));
}

#[test]
fn slots_have_their_numbers_and_kinds() {
    assert_eq!(Slot::Params.binding(), 0);
    assert_eq!(Slot::Velocities.binding(), 4);
    assert_eq!(Slot::Top.binding(), 21);
    assert_eq!(Slot::Gathered.binding(), 25);
    assert_eq!(
        Pass::Prefix.bindings(),
        vec![(1, Binding::Uniform { size: 16, dynamic: true }), (14, Binding::Storage)]
    );
    assert_eq!(PARAM_BYTES, 336);
    for pass in Pass::all() {
        let slots = pass.slots();
        for (i, a) in slots.iter().enumerate() {
            assert!(slots[i + 1..].iter().all(|b| a.binding() != b.binding()));
        }
        assert_eq!(pass.bindings().len(), slots.len());
    }
}

#[test]
fn groups_bind_every_slot_of_their_pass() {
    for pass in Pass::all() {
        let bound_elsewhere = Pass::grid().contains(&pass)
            || pass == Pass::GatherVectors
            || pass == Pass::GatherScalars;
        match solver_group(pass) {
            None => assert!(bound_elsewhere),
            Some(group) => {
                assert!(!bound_elsewhere);
                let numbers: Vec<u32> = group.iter().map(|(b, _)| *b).collect();
                let wanted: Vec<u32> = pass.slots().iter().map(|s| s.binding()).collect();
                assert_eq!(numbers, wanted);
            }
        }
    }
    assert_eq!(
        grid_group(GridOf::Surface, Buffer::Interp, Pass::Bin),
        vec![
            (0, Buffer::GridParams(GridOf::Surface)),
            (5, Buffer::Interp),
            (12, Buffer::CellsOf(GridOf::Surface)),
        ]
    );
    assert_eq!(
        gather_group(Buffer::Velocities),
        vec![
            (0, Buffer::Params),
            (16, Buffer::Sorted(GridOf::Solver)),
            (23, Buffer::Velocities),
            (9, Buffer::Scratch),
        ]
    );
    assert_eq!(
        gather_group(Buffer::Ids)[2..],
        [(24, Buffer::Ids), (25, Buffer::Gathered)]
    );
    assert_eq!(
        scan_group(ScanOf::Spray),
        vec![(1, Buffer::ScanLevels(ScanOf::Spray)), (14, Buffer::Offsets(ScanOf::Spray))]
    );
}

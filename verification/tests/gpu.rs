use fluids::gpu::{
    bytes_of, cast, dispatch, layout, tabulate, Binding, Command, LayoutEntry, VolumeFormat,
};
use fluids::scan::{levels, Level};

#[test]
fn dispatches_cover_the_count_within_the_limit() {
    for (count, expected) in [
        (0u32, None),
        (1, Some((1u32, 1u32))),
        (256, Some((1, 1))),
        (257, Some((2, 1))),
        (256 * 65535, Some((65535, 1))),
        (256 * 65535 + 1, Some((65535, 2))),
        (u32::MAX, Some((65535, 257))),
    ] {
        let mut program = vec![];
        dispatch(&mut program, count);
        match expected {
            None => assert!(program.is_empty()),
            Some((x, y)) => {
                assert_eq!(program, vec![Command::Dispatch(x, y)]);
                assert!(256 * x as u64 * y as u64 >= count as u64);
            }
        }
    }
}

#[test]
fn layouts_follow_the_bindings() {
    let bindings = vec![
        (0, Binding::Uniform { size: 336, dynamic: false }),
        (1, Binding::Uniform { size: 0, dynamic: true }),
        (7, Binding::Storage),
        (9, Binding::VolumeOut(VolumeFormat::Rgba8Unorm)),
    ];
    assert_eq!(
        layout(&bindings),
        vec![
            LayoutEntry::Uniform { binding: 0, dynamic: false, min_size: Some(336) },
            LayoutEntry::Uniform { binding: 1, dynamic: true, min_size: None },
            LayoutEntry::Storage { binding: 7, read_only: false },
            LayoutEntry::VolumeOut { binding: 9, format: VolumeFormat::Rgba8Unorm },
        ]
    );
}

#[test]
fn words_survive_the_way_through_bytes() {
    let words = vec![1u32, 0x0102_0304, u32::MAX, 0];
    let bytes = bytes_of(&words);
    assert_eq!(bytes.len(), 16);
    assert_eq!(&bytes[4..8], &0x0102_0304u32.to_ne_bytes());
    assert_eq!(cast(&bytes), words);
    assert!(cast(&[]).is_empty());
}

#[test]
fn bytes_are_read_whatever_their_alignment() {
    let mut bytes = vec![0u8; 3];
    bytes.extend_from_slice(&7u32.to_ne_bytes());
    bytes.extend_from_slice(&9u32.to_ne_bytes());
    for from in 0..4 {
        let mut shifted = vec![0u8; from];
        shifted.extend_from_slice(&bytes[3..]);
        assert_eq!(cast(&shifted[from..]), vec![7, 9]);
    }
    // A tail that is no whole word is filled up with zeros.
    let mut odd = 7u32.to_ne_bytes().to_vec();
    odd.push(5);
    assert_eq!(cast(&odd), vec![7, u32::from_ne_bytes([5, 0, 0, 0])]);
}

#[test]
fn levels_are_laid_out_at_their_offsets() {
    let list = levels(8, true);
    let table = tabulate(&list, 64);
    assert_eq!(table.bytes.len(), 6 * 64);
    for (k, level) in list.iter().enumerate() {
        assert_eq!(table.runs[k], (64 * k as u32, level.count));
        let words = cast(&table.bytes[64 * k..64 * (k + 1)]);
        let Level { stride, count, top, down } = *level;
        assert_eq!(&words[..4], &[stride, count, top, down]);
        assert!(words[4..].iter().all(|&w| w == 0));
    }
}

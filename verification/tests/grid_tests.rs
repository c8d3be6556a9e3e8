use std::io::{Read, Write};
use grid::aabb::{vec_contains_point, AABBBarrier};
use grid::controls::{
    action_button_color, solve_info_text, SolveInfo, strongest_interaction, toggle_button, ButtonColor, GuiState, Interaction,
    SpeedDirection, MAX_WATER_SPEED,
};
use grid::debug_buffer::DebugBuffer;
use grid::error::FileError;
use grid::grid::{BoundsCheckError, Grid};
use grid::header::{de_quote, parse_tuple};
use grid::stack::{get_item, in_bounds, set_item, GridStack, StackError};
use grid::vector::Vector;
use grid::vector2::Vector2;

fn chars(s: &str) -> Vec<char> {
    s.chars().collect()
}

fn bits_grid(x: usize, y: usize, f: impl Fn(usize, usize) -> f32) -> Grid<u32> {
    Grid::from_fn(|a, b| f(a, b).to_bits(), Vector2::new(x, y))
}

#[test]
fn save_and_load() {
    let dimensions = Vector2::new(10, 10);
    let g = Grid::from_fn(|_, _| 0.0f32.to_bits(), dimensions);
    let saved = Grid::save_several_layers_bytes(&[&g]);
    let g_out: Vec<Grid<u32>> = Grid::load_layers_bytes(&saved).expect("failed to load");
    assert_eq!(g_out.len(), 1);
    let g_out_x = g_out[0].x();
    let g_out_y = g_out[0].y();
    assert_eq!(g_out_x, dimensions.x);
    assert_eq!(g_out_y, dimensions.y);
}

#[test]
fn test_big_grid() {
    let g_layers: Vec<Grid<u32>> = (0..3)
        .map(|l| bits_grid(100, 200, |x, y| (x as f32).powi(2) + y as f32 + l as f32))
        .collect();
    let g_layers_ref: Vec<&Grid<u32>> = g_layers.iter().map(|g| g).collect();
    let write: Vec<u8> = Grid::save_several_layers_bytes(&g_layers_ref);
    let g_load_arr: Vec<Grid<u32>> = Grid::load_layers_bytes(&write).expect("failed to load");
    assert_eq!(g_layers.len(), g_load_arr.len());
    for i in 0..g_layers.len() {
        assert_eq!(g_layers[i].x(), g_load_arr[i].x());
        assert_eq!(g_layers[i].y(), g_load_arr[i].y());
        let dim_x = g_layers[i].x();
        let dim_y = g_layers[i].y();
        for x in 0..dim_x {
            for y in 0..dim_y {
                let diff = f32::from_bits(g_layers[i].get(x, y))
                    - f32::from_bits(g_load_arr[i].get(x, y));
                assert!(diff.abs() < 0.01);
            }
        }
    }
    assert_eq!(g_load_arr.len(), 3)
}

#[test]
fn grid_lookups() {
    let g = Grid::from_vec(Vector2::new(2, 3), vec![0u32, 1, 2, 3, 4, 5]);
    assert_eq!(g.x(), 2);
    assert_eq!(g.y(), 3);
    assert_eq!(g.get(1, 2), 5);
    assert_eq!(g.get(0, 2), 2);
    // the storage index y() * x + y may wrap into the next x
    assert_eq!(g.get(0, 4), 4);
    assert_eq!(g.get_or(1, 1, 99), 4);
    assert_eq!(g.get_or(-1, 0, 99), 99);
    assert_eq!(g.get_or(0, -1, 99), 99);
    assert_eq!(g.get_or(2, 0, 99), 99);
    // a pair past the second extent is outside the grid, whatever its storage index
    assert_eq!(g.get_or(0, 3, 99), 99);
    assert_eq!(g.get_or(0, 4, 99), 99);
    assert_eq!(g.get_unchecked(Vector2::new(1i64, 0i64)), 3);
    assert_eq!(g.get_checked(1, 2).unwrap(), 5);
    match g.get_checked(2, 0) {
        Err(BoundsCheckError::InvalidIndex { invalid_x, invalid_y, size_x, size_y }) => {
            assert_eq!((invalid_x, invalid_y, size_x, size_y), (2, 0, 2, 3));
        }
        Ok(_) => panic!("expected an error"),
    }
    assert!(g.get_checked(0, -1).is_err());
    assert!(g.get_checked(0, 3).is_err());
}

#[test]
fn grid_writes() {
    let mut g = Grid::from_fn(|x, y| (10 * x + y) as u32, Vector2::new(3, 2));
    assert_eq!(g.get(2, 1), 21);
    *g.get_mut(2, 1) = 7;
    assert_eq!(g.get(2, 1), 7);
    assert_eq!(g.get(2, 0), 20);
    *g.get_mut_unchecked(Vector2::new(0i64, 1i64)) = 8;
    assert_eq!(g.get(0, 1), 8);
}

#[test]
fn numpy_data_header() {
    let g = Grid::from_fn(|_, _| 1.0f32.to_bits(), Vector2::new(12, 3));
    let data = g.numpy_data();
    let header = "{'descr': '<f4', 'fortran_order': False, 'shape': (12, 3, 1), }";
    assert_eq!(&data[0..8], &[0x93, b'N', b'U', b'M', b'P', b'Y', 1, 0]);
    assert_eq!(&data[8..10], &(header.len() as u16).to_le_bytes());
    assert_eq!(&data[10..10 + header.len()], header.as_bytes());
    assert_eq!(data.len(), 10 + header.len() + 12 * 3 * 4);
    assert_eq!(&data[10 + header.len()..10 + header.len() + 4], &1.0f32.to_le_bytes());
}

#[test]
fn numpy_data_loads_back() {
    let g = bits_grid(4, 5, |x, y| x as f32 * 0.5 - y as f32);
    let data = g.numpy_data();
    let loaded: Vec<Grid<u32>> = Grid::load_layers_bytes(&data).unwrap();
    assert_eq!(loaded.len(), 1);
    assert_eq!(loaded[0].x(), 4);
    assert_eq!(loaded[0].y(), 5);
    for x in 0..4 {
        for y in 0..5 {
            assert_eq!(loaded[0].get(x, y), g.get(x, y));
        }
    }
}

#[test]
fn two_channel_values_load_back() {
    let g = Grid::from_fn(
        |x, y| Vector2::new((x as f32).to_bits(), (y as f32 + 0.25).to_bits()),
        Vector2::new(3, 2),
    );
    let data = g.numpy_data();
    let loaded: Vec<Grid<Vector2<u32>>> = Grid::load_layers_bytes(&data).unwrap();
    assert_eq!(loaded.len(), 1);
    assert_eq!(loaded[0].get(2, 1), Vector2::new(2.0f32.to_bits(), 1.25f32.to_bits()));
    assert_eq!(<Vector2<u32> as Vector>::dim(), 2);
    let bytes = Vector2::new(1u32, 2u32).to_le_bytes();
    assert_eq!(bytes, vec![1, 0, 0, 0, 2, 0, 0, 0]);
    assert_eq!(<Vector2<u32> as Vector>::from_le_bytes(&bytes), Vector2::new(1u32, 2u32));
}

fn npy(header: &str, data: &[u8]) -> Vec<u8> {
    let mut out = vec![0x93, b'N', b'U', b'M', b'P', b'Y', 1, 0];
    out.extend_from_slice(&(header.len() as u16).to_le_bytes());
    out.extend_from_slice(header.as_bytes());
    out.extend_from_slice(data);
    out
}

#[test]
fn load_errors() {
    let bad_magic = npy("{'descr': '<f4', 'shape': (1, 1, 1), }", &[0, 0, 0, 0]);
    let mut b = bad_magic.clone();
    b[2] = b'X';
    assert!(matches!(Grid::<u32>::load_layers_bytes(&b), Err(FileError::InvalidHeader)));
    let mut b = bad_magic.clone();
    b[3] = 0xff;
    assert!(matches!(Grid::<u32>::load_layers_bytes(&b), Err(FileError::Utf8Error(_))));
    let mut b = bad_magic.clone();
    b[10] = b'[';
    assert!(matches!(Grid::<u32>::load_layers_bytes(&b), Err(FileError::InvalidHeader)));
    let no_close = npy("{'descr': '<f4'", &[]);
    assert!(matches!(Grid::<u32>::load_layers_bytes(&no_close), Err(FileError::InvalidHeader)));
    let no_shape = npy("{'descr': '<f4', }", &[]);
    assert!(matches!(Grid::<u32>::load_layers_bytes(&no_shape), Err(FileError::InvalidHeaderJson)));
    let two_entries = npy("{'descr': '<f4', 'shape': (1, 1), }", &[0, 0, 0, 0]);
    assert!(matches!(
        Grid::<u32>::load_layers_bytes(&two_entries),
        Err(FileError::InvalidHeaderJson)
    ));
    let doubles = npy("{'descr': '<f8', 'shape': (1, 1, 1), }", &[0; 8]);
    match Grid::<u32>::load_layers_bytes(&doubles) {
        Err(FileError::UnsupportedDatatype(s)) => assert_eq!(s, "'<f8'"),
        _ => panic!("expected an unsupported datatype"),
    }
    let wrong_channels = npy("{'descr': '<f4', 'shape': (1, 1, 2), }", &[0; 8]);
    assert!(matches!(
        Grid::<u32>::load_layers_bytes(&wrong_channels),
        Err(FileError::InvalidHeaderJson)
    ));
    let colon_in_paren = npy("{'shape': (1: 1), }", &[]);
    assert!(matches!(
        Grid::<u32>::load_layers_bytes(&colon_in_paren),
        Err(FileError::InvalidHeaderJson)
    ));
}

#[test]
fn load_reads_layers_and_last_entry_wins() {
    let mut data = Vec::new();
    for v in [1.0f32, 2.0, 3.0, 4.0] {
        data.extend_from_slice(&v.to_le_bytes());
    }
    let image = npy(
        "{'shape': (9, 9), 'descr': '<f4', 'shape': (2, 1, 2, 1), }",
        &data,
    );
    let layers: Vec<Grid<u32>> = Grid::load_layers_bytes(&image).unwrap();
    assert_eq!(layers.len(), 2);
    assert_eq!(layers[0].x(), 1);
    assert_eq!(layers[0].y(), 2);
    assert_eq!(f32::from_bits(layers[0].get(0, 1)), 2.0);
    assert_eq!(f32::from_bits(layers[1].get(0, 0)), 3.0);
}

#[test]
fn load_panicking_inputs_are_told_apart() {
    assert!(Grid::<u32>::try_load_layers_bytes(&[1, 2, 3]).is_none());
    let short_data = npy("{'descr': '<f4', 'shape': (2, 2, 1), }", &[0; 4]);
    assert!(Grid::<u32>::try_load_layers_bytes(&short_data).is_none());
    let huge = npy("{'descr': '<f4', 'shape': (99999999999, 1, 1), }", &[]);
    assert!(Grid::<u32>::try_load_layers_bytes(&huge).is_none());
    let ok = npy("{'descr': '<f4', 'shape': (0, 5, 1), }", &[]);
    match Grid::<u32>::try_load_layers_bytes(&ok) {
        Some(Ok(layers)) => {
            assert_eq!(layers.len(), 1);
            assert_eq!(layers[0].x(), 0);
            assert_eq!(layers[0].y(), 5);
        }
        _ => panic!("expected one empty layer"),
    }
}

#[test]
fn tuples_and_quotes() {
    assert_eq!(parse_tuple(&chars(" (1, 22,333) ")).unwrap(), vec![1, 22, 333]);
    assert_eq!(parse_tuple(&chars("(,4)")).unwrap(), vec![0, 4]);
    assert!(parse_tuple(&chars("(1 ,2)")).is_err());
    assert!(parse_tuple(&chars("()")).is_err());
    assert!(parse_tuple(&chars("(1,)")).is_err());
    assert!(parse_tuple(&chars("[1]")).is_err());
    assert!(parse_tuple(&chars("(1, 2")).is_err());
    assert!(parse_tuple(&chars("")).is_err());
    assert_eq!(de_quote(&chars("  '\"shape\"' ")).unwrap(), chars("shape"));
    assert_eq!(de_quote(&chars("'' ")).unwrap(), chars(""));
    assert!(de_quote(&chars(" \u{3000} ")).is_none());
}

#[test]
fn debug_buffer_ring() {
    let grid_of = |v: u32| Grid::from_vec(Vector2::new(1, 1), vec![v]);
    let mut buffer: DebugBuffer<u32> = DebugBuffer::new(3);
    buffer.push(grid_of(0));
    buffer.push(grid_of(1));
    let saved = buffer.save_data();
    let layers: Vec<Grid<u32>> = Grid::load_layers_bytes(&saved).unwrap();
    assert_eq!(layers.iter().map(|g| g.get(0, 0)).collect::<Vec<_>>(), vec![0, 1]);
    buffer.push(grid_of(2));
    buffer.push(grid_of(3));
    let layers: Vec<Grid<u32>> = Grid::load_layers_bytes(&buffer.save_data()).unwrap();
    // the fourth grid replaced the slot after slot 0 and is saved first
    assert_eq!(layers.iter().map(|g| g.get(0, 0)).collect::<Vec<_>>(), vec![3, 2, 0]);
    buffer.push(grid_of(4));
    let layers: Vec<Grid<u32>> = Grid::load_layers_bytes(&buffer.save_data()).unwrap();
    assert_eq!(layers.iter().map(|g| g.get(0, 0)).collect::<Vec<_>>(), vec![4, 0, 3]);
}

#[test]
fn play_button_cycles_speeds() {
    let mut state = GuiState::default();
    assert_eq!(state.water_speed, 0);
    assert!(state.show_water);
    let mut speeds = Vec::new();
    for _ in 0..16 {
        let color = state.play_button(Some(Interaction::Clicked));
        assert_eq!(color, Some(ButtonColor::Pressed));
        speeds.push(state.water_speed);
        assert!(state.water_speed <= MAX_WATER_SPEED);
    }
    assert_eq!(speeds, vec![1, 2, 4, 8, 16, 32, 64, 32, 16, 8, 4, 2, 1, 2, 4, 8]);
    assert_eq!(state.speed_direction, SpeedDirection::Increasing);
    let before = state;
    assert_eq!(state.play_button(Some(Interaction::Hovered)), Some(ButtonColor::Hover));
    assert_eq!(state, before);
    assert_eq!(state.play_button(None), None);
    let mut paused = GuiState::default();
    assert_eq!(paused.play_button(None), Some(ButtonColor::Normal));
}

#[test]
fn pause_button_and_label() {
    let mut state = GuiState::default();
    assert_eq!(state.speed_label(), "Paused");
    assert_eq!(state.pause_button(Interaction::Clicked), ButtonColor::Hover);
    assert_eq!(state.water_speed, 1);
    assert_eq!(state.speed_label(), "1x");
    assert_eq!(state.pause_button(Interaction::Idle), ButtonColor::Normal);
    assert_eq!(state.pause_button(Interaction::Clicked), ButtonColor::Pressed);
    assert_eq!(state.water_speed, 0);
    assert_eq!(state.pause_button(Interaction::Idle), ButtonColor::Pressed);
    state.water_speed = 64;
    assert_eq!(state.speed_label(), "64x");
}

#[test]
fn interactions_and_toggles() {
    assert_eq!(strongest_interaction(&[]), Interaction::Idle);
    assert_eq!(strongest_interaction(&[Interaction::Idle, Interaction::Hovered, Interaction::Idle]), Interaction::Hovered);
    assert_eq!(strongest_interaction(&[Interaction::Hovered, Interaction::Clicked, Interaction::Idle]), Interaction::Clicked);
    let mut shown = false;
    assert_eq!(toggle_button(&mut shown, Interaction::Hovered), Some(ButtonColor::Hover));
    assert_eq!(toggle_button(&mut shown, Interaction::Clicked), Some(ButtonColor::Pressed));
    assert!(shown);
    assert_eq!(toggle_button(&mut shown, Interaction::Hovered), None);
    assert_eq!(toggle_button(&mut shown, Interaction::Idle), Some(ButtonColor::Pressed));
    assert_eq!(toggle_button(&mut shown, Interaction::Clicked), Some(ButtonColor::Normal));
    assert!(!shown);
    assert_eq!(action_button_color(Interaction::Clicked), ButtonColor::Pressed);
    assert_eq!(action_button_color(Interaction::Idle), ButtonColor::Normal);
}

#[test]
fn barriers() {
    let b = AABBBarrier { top_right: Vector2::new(30, 110), bottom_left: Vector2::new(-10, 109) };
    assert!(b.contains_point(30, 110));
    assert!(b.contains_point(-10, 109));
    assert!(!b.contains_point(31, 110));
    assert!(!b.contains_point(0, 108));
    let c = AABBBarrier { top_right: Vector2::new(65, 110), bottom_left: Vector2::new(35, 109) };
    assert!(vec_contains_point(&[b, c], 40, 110));
    assert!(!vec_contains_point(&[b, c], 32, 110));
    assert!(!vec_contains_point(&[], 0, 0));
}

#[test]
fn stacks_and_bounds() {
    let mut stack: GridStack<u32> = GridStack::new();
    let g = Grid::from_vec(Vector2::new(2, 2), vec![0u32; 4]);
    assert!(stack.push_grid(g.clone()).is_ok());
    // a stack without layers takes none
    assert_eq!(stack.len(), 0);
    assert!(in_bounds(&g, 1, 1));
    assert!(!in_bounds(&g, 2, 1));
    assert!(!in_bounds(&g, 0, -1));
}

#[test]
fn stacks_take_matching_layers() {
    let first = Grid::from_vec(Vector2::new(2, 3), vec![1u32; 6]);
    let mut stack = GridStack::from_layers(vec![first]);
    assert_eq!(stack.len(), 1);
    assert!(stack.push_grid(Grid::from_vec(Vector2::new(2, 3), vec![2u32; 6])).is_ok());
    assert_eq!(stack.len(), 2);
    match stack.push_grid(Grid::from_vec(Vector2::new(3, 2), vec![3u32; 6])) {
        Err(e) => {
            let StackError::InvalidDimensions { old_x, new_x, old_y, new_y } = e.clone();
            assert_eq!((old_x, new_x, old_y, new_y), (2, 3, 3, 2));
            assert_eq!(
                e.message(),
                "invalid dimensions requested dimensions: (2, 3) correct dimensions: (3, 2)"
            );
        }
        Ok(()) => panic!("mismatched extents must be refused"),
    }
    assert_eq!(stack.len(), 2);
}

#[test]
fn stack_error_message_digits() {
    let e = StackError::InvalidDimensions { old_x: 0, new_x: 4096, old_y: 17, new_y: 4294967295 };
    assert_eq!(
        e.message(),
        "invalid dimensions requested dimensions: (0, 17) correct dimensions: (4096, 4294967295)"
    );
}

#[test]
fn items_read_and_write_in_bounds_only() {
    let mut g = Grid::from_vec(Vector2::new(2, 3), vec![0u32, 1, 2, 3, 4, 5]);
    assert_eq!(get_item(&g, 1, 2), Some(5));
    assert_eq!(get_item(&g, 0, 3), None);
    assert_eq!(get_item(&g, -1, 0), None);
    assert!(set_item(&mut g, 1, 0, 30));
    assert!(!set_item(&mut g, 2, 0, 99));
    assert!(!set_item(&mut g, 0, -2, 99));
    assert_eq!(get_item(&g, 1, 0), Some(30));
    // the other cells read as before
    let others: Vec<u32> = [(0, 0), (0, 1), (0, 2), (1, 1), (1, 2)]
        .iter()
        .map(|&(x, y)| get_item(&g, x, y).unwrap())
        .collect();
    assert_eq!(others, vec![0, 1, 2, 4, 5]);
}

#[test]
fn write_through_get_mut_then_read() {
    let mut g = Grid::from_vec(Vector2::new(3, 2), vec![7u32; 6]);
    *g.get_mut(2, 1) = 11;
    assert_eq!(g.get(2, 1), 11);
    for x in 0..3 {
        for y in 0..2 {
            if (x, y) != (2, 1) {
                assert_eq!(g.get(x, y), 7);
            }
        }
    }
}

#[test]
fn solve_info_lines() {
    assert_eq!(solve_info_text(&[]), "");
    let infos = vec![
        SolveInfo { name: "Volume", data: "1.00e2".to_string() },
        SolveInfo { name: "max delta Height", data: "3".to_string() },
    ];
    assert_eq!(solve_info_text(&infos), "\nVolume: 1.00e2\nmax delta Height: 3");
}

#[test]
fn saved_layers_are_a_stored_zip_entry() {
    let a = bits_grid(2, 3, |x, y| x as f32 + 10.0 * y as f32);
    let b = bits_grid(2, 3, |x, y| -(x as f32) * y as f32);
    let saved = Grid::save_several_layers_bytes(&[&a, &b]);
    assert_eq!(&saved[0..4], b"PK\x03\x04");
    let image = Grid::several_layers_npy(&[&a, &b]);
    let mut archive = zip::ZipArchive::new(std::io::Cursor::new(saved.clone())).unwrap();
    assert_eq!(archive.len(), 1);
    let mut entry = archive.by_index(0).unwrap();
    assert_eq!(entry.name(), "0");
    assert_eq!(entry.compression(), zip::CompressionMethod::Stored);
    let mut inner = Vec::new();
    entry.read_to_end(&mut inner).unwrap();
    assert_eq!(inner, image);
    let header = "{'descr': '<f4', 'fortran_order': False, 'shape': (2, 2, 3, 1), }";
    assert_eq!(&image[10..10 + header.len()], header.as_bytes());
    assert_eq!(image.len(), 10 + header.len() + 2 * 2 * 3 * 4);
}

#[test]
fn debug_ring_limits_and_saved_order() {
    let grid_of = |v: u32| Grid::from_vec(Vector2::new(1, 1), vec![v]);
    let mut buffer: DebugBuffer<u32> = DebugBuffer::new(2);
    assert_eq!(buffer.len(), 0);
    assert_eq!(buffer.buffer_size(), 2);
    for v in 0..5 {
        buffer.push(grid_of(v));
        assert!(buffer.len() <= 2);
    }
    let order: Vec<u32> = buffer.saved_layer_refs().iter().map(|g| g.get(0, 0)).collect();
    // once full, each push takes the slot after the current one: the last
    // push sits in slot 1, which is current and saved first
    assert_eq!(order, vec![4, 3]);
    let refs = buffer.saved_layer_refs();
    assert_eq!(buffer.save_data(), Grid::save_several_layers_bytes(&refs));
}

#[test]
fn get_or_gives_the_default_outside_the_grid() {
    let g = Grid::from_fn(|x, y| (10 * x + y) as u32, Vector2::new(2, 2));
    assert_eq!(g.get_or(0, 2, 999), 999);
    assert_eq!(g.get_or(-1, 0, 999), 999);
    assert_eq!(g.get_or(1, 1, 999), 11);
    assert_eq!(g.get_or(1, 0, 999), 10);
    assert_eq!(g.get_or(2, 1, 999), 999);
}

/// A stored archive whose entry carries an AES extra field while its
/// encrypted flag is clear: the zip crate refuses to read the entry.
fn archive_with_aes_field(data: &[u8]) -> Vec<u8> {
    let mut w = zip::ZipWriter::new(std::io::Cursor::new(Vec::new()));
    let options = zip::write::FileOptions::default().compression_method(zip::CompressionMethod::Stored);
    w.start_file_with_extra_data("0", options).unwrap();
    // a placeholder kind, patched to the AES kind below
    w.write_all(&[0xef, 0xbe, 7, 0, 1, 0, 0x41, 0x45, 1, 0, 0]).unwrap();
    w.end_extra_data().unwrap();
    w.write_all(data).unwrap();
    let mut bytes = w.finish().unwrap().into_inner();
    for i in 0..bytes.len() - 3 {
        if bytes[i..i + 4] == [0xef, 0xbe, 7, 0] {
            bytes[i] = 0x01;
            bytes[i + 1] = 0x99;
        }
    }
    bytes
}

#[test]
fn unreadable_archive_entries_do_not_stop_loading() {
    let g = bits_grid(2, 2, |x, y| x as f32 + y as f32);
    let image = Grid::several_layers_npy(&[&g]);
    let crafted = archive_with_aes_field(&image);
    assert_eq!(&crafted[0..4], b"PK\x03\x04");
    // the entry cannot be read, so the bytes are read as an image themselves
    match Grid::<u32>::try_load_layers_bytes(&crafted) {
        Some(Err(FileError::InvalidHeader)) => {}
        Some(Err(e)) => panic!("unexpected error {:?}", e),
        Some(Ok(_)) => panic!("the entry should not be readable"),
        None => panic!("reading the archive should not count as a panicking input"),
    }
}

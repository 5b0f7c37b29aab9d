use rstracer::canvas::{BufferedCanvas, CanvasError, CanvasVector, EOL_SIZE, PREFIX_SIZE};
use rstracer::colour::{btod, Colour};

const ROW: usize = 20 * PREFIX_SIZE + EOL_SIZE;

fn cell(bytes: &[u8], x: usize, y: usize, width: usize) -> Vec<u8> {
    let at = PREFIX_SIZE * x + y * (PREFIX_SIZE * width + EOL_SIZE);
    bytes[at..at + PREFIX_SIZE].to_vec()
}

#[test]
fn test_eols() {
    let mut canvas = BufferedCanvas::<20, 20, 3>::new();
    canvas.put_pixel(Colour::new(255, 255, 100), CanvasVector::new(10, 10)).unwrap();
    for _ in 0..canvas.buffers() {
        for row in 0..canvas.size().y {
            assert_eq!(canvas.display_bytes()[(row + 1) * ROW - 1], b'\n');
            assert_eq!(&canvas.display_bytes()[(row + 1) * ROW - 5..(row + 1) * ROW], b"\x1b[0m\n");
        }
        canvas.swap();
    }
}

#[test]
fn btod_digits() {
    assert_eq!(btod(255), *b"255");
    assert_eq!(btod(10), *b"010");
    assert_eq!(btod(0), *b"000");
    assert_eq!(btod(7), *b"007");
}

#[test]
fn new_canvas_shows_black_and_sizes() {
    let canvas = BufferedCanvas::<4, 3, 2>::new();
    assert_eq!(canvas.buffers(), 2);
    assert_eq!(canvas.size(), CanvasVector::new(4, 3));
    assert_eq!(canvas.display_index(), 1);
    assert_eq!(canvas.edit_index(), 0);
    let shown = canvas.display_bytes();
    assert_eq!(shown.len(), 3 * (4 * PREFIX_SIZE + EOL_SIZE));
    assert_eq!(cell(shown, 3, 2, 4), b"\x1b[48;2;000;000;000m  ".to_vec());
}

#[test]
fn put_pixel_encodes_colour() {
    let mut canvas = BufferedCanvas::<20, 20, 2>::new();
    canvas.put_pixel(Colour::new(255, 10, 7), CanvasVector::new(10, 10)).unwrap();
    canvas.swap();
    assert_eq!(cell(canvas.display_bytes(), 10, 10, 20), b"\x1b[48;2;255;010;007m  ".to_vec());
    assert_eq!(cell(canvas.display_bytes(), 9, 10, 20), vec![0u8; PREFIX_SIZE]);
}

#[test]
fn put_cell_writes_glyph() {
    let mut canvas = BufferedCanvas::<5, 5, 2>::new();
    canvas.put_cell(*b"ab", Colour::from_element(40), CanvasVector::new(0, 4)).unwrap();
    canvas.full_swap();
    assert_eq!(cell(canvas.display_bytes(), 0, 4, 5), b"\x1b[48;2;040;040;040mab".to_vec());
}

#[test]
fn put_cell_out_of_range() {
    let mut canvas = BufferedCanvas::<5, 4, 2>::new();
    let before = canvas.display_bytes().clone();
    assert_eq!(canvas.put_pixel(Colour::new(1, 2, 3), CanvasVector::new(5, 0)), Err(CanvasError::OutOfRange));
    assert_eq!(canvas.put_pixel(Colour::new(1, 2, 3), CanvasVector::new(0, 4)), Err(CanvasError::OutOfRange));
    assert_eq!(canvas.put_cell(*b"xy", Colour::new(1, 2, 3), CanvasVector::new(9, 9)), Err(CanvasError::OutOfRange));
    canvas.full_swap();
    canvas.full_swap();
    assert_eq!(canvas.display_bytes(), &before);
}

#[test]
fn write_odd_text_pads_to_two_cells() {
    let mut canvas = BufferedCanvas::<6, 2, 2>::new();
    canvas.write("abc", Colour::new(1, 2, 3), CanvasVector::new(1, 1)).unwrap();
    canvas.full_swap();
    let shown = canvas.display_bytes();
    assert_eq!(cell(shown, 1, 1, 6), b"\x1b[48;2;001;002;003mab".to_vec());
    assert_eq!(cell(shown, 2, 1, 6), b"\x1b[48;2;001;002;003mc ".to_vec());
    assert_eq!(cell(shown, 3, 1, 6), vec![0u8; PREFIX_SIZE]);
    assert_eq!(cell(shown, 0, 1, 6), vec![0u8; PREFIX_SIZE]);
}

#[test]
fn write_even_text_uses_two_cells() {
    let mut canvas = BufferedCanvas::<6, 2, 2>::new();
    canvas.write("abcd", Colour::new(9, 9, 9), CanvasVector::new(0, 0)).unwrap();
    canvas.full_swap();
    let shown = canvas.display_bytes();
    assert_eq!(cell(shown, 0, 0, 6), b"\x1b[48;2;009;009;009mab".to_vec());
    assert_eq!(cell(shown, 1, 0, 6), b"\x1b[48;2;009;009;009mcd".to_vec());
    assert_eq!(cell(shown, 2, 0, 6), vec![0u8; PREFIX_SIZE]);
}

#[test]
fn write_past_row_end_is_refused() {
    let mut canvas = BufferedCanvas::<3, 2, 2>::new();
    assert_eq!(canvas.write("abcde", Colour::new(0, 0, 0), CanvasVector::new(1, 0)), Err(CanvasError::OutOfRange));
    assert_eq!(canvas.write("ab", Colour::new(0, 0, 0), CanvasVector::new(0, 2)), Err(CanvasError::OutOfRange));
    assert_eq!(canvas.write("abcdef", Colour::new(0, 0, 0), CanvasVector::new(0, 1)), Ok(()));
    assert_eq!(canvas.write("", Colour::new(0, 0, 0), CanvasVector::new(3, 1)), Ok(()));
}

#[test]
fn fill_and_clear_cover_every_cell() {
    let mut canvas = BufferedCanvas::<3, 2, 2>::new();
    canvas.fill(Colour::new(12, 34, 56));
    canvas.full_swap();
    for y in 0..2 {
        for x in 0..3 {
            assert_eq!(cell(canvas.display_bytes(), x, y, 3), b"\x1b[48;2;012;034;056m  ".to_vec());
        }
    }
    canvas.full_swap();
    canvas.clear();
    canvas.full_swap();
    assert_eq!(cell(canvas.display_bytes(), 2, 1, 3), b"\x1b[48;2;000;000;000m  ".to_vec());
}

#[test]
fn two_swaps_restore_indices_with_two_buffers() {
    let mut canvas = BufferedCanvas::<2, 2, 2>::new();
    let (d, e) = (canvas.display_index(), canvas.edit_index());
    canvas.swap();
    assert_eq!((canvas.display_index(), canvas.edit_index()), (e, d));
    assert_ne!(canvas.display_index(), canvas.edit_index());
    canvas.swap();
    assert_eq!((canvas.display_index(), canvas.edit_index()), (d, e));
}

#[test]
fn swap_rotates_round_robin() {
    let mut canvas = BufferedCanvas::<2, 2, 3>::new();
    assert_eq!((canvas.display_index(), canvas.edit_index()), (2, 0));
    canvas.swap();
    assert_eq!((canvas.display_index(), canvas.edit_index()), (0, 1));
    canvas.swap();
    assert_eq!((canvas.display_index(), canvas.edit_index()), (1, 2));
    canvas.full_swap();
    assert_eq!((canvas.display_index(), canvas.edit_index()), (2, 1));
}

#[test]
fn shown_buffer_never_receives_writes() {
    let mut canvas = BufferedCanvas::<3, 3, 2>::new();
    let shown = canvas.display_bytes().clone();
    canvas.put_pixel(Colour::new(200, 100, 50), CanvasVector::new(1, 1)).unwrap();
    assert_eq!(canvas.display_bytes(), &shown);
    canvas.swap();
    assert_eq!(cell(canvas.display_bytes(), 1, 1, 3), b"\x1b[48;2;200;100;050m  ".to_vec());
}

//! What a front end draws and how it reads keys: the board as a pixel buffer, the quit request,
//! and the key bindings.
use vstd::prelude::*;

use crate::input::Input;
use crate::{COLS, ROWS};

verus! {

pub const WHITE: u32 = 0x00FF_FFFF;

pub const BLACK: u32 = 0x0000_0000;

pub const SCALE: usize = 32;

pub const WIDTH: usize = COLS * SCALE;

pub const HEIGHT: usize = ROWS * SCALE;

/// The colour of the pixel at column `x`, row `y` of the buffer: white where the board cell
/// under it is settled.
pub open spec fn pixel_colour(board: [[bool; COLS]; ROWS], scale: int, x: int, y: int) -> u32 {
    if board[y / scale][x / scale] {
        WHITE
    } else {
        BLACK
    }
}

/// The pixel buffer of a board drawn with square cells of side `scale`, row after row.
pub open spec fn board_pixels(board: [[bool; COLS]; ROWS], scale: int) -> Seq<u32> {
    let width = COLS * scale;
    Seq::new(
        (width * (ROWS * scale)) as nat,
        |i: int| pixel_colour(board, scale, i % width, i / width),
    )
}

proof fn lemma_cell_of_pixel(x: int, scale: int, n: int)
    requires
        0 <= x < n * scale,
        scale > 0,
    ensures
        0 <= x / scale < n,
{
    vstd::arithmetic::div_mod::lemma_fundamental_div_mod(x, scale);
    assert(0 <= x / scale < n) by (nonlinear_arith)
        requires
            0 <= x < n * scale,
            scale > 0,
            x == scale * (x / scale) + x % scale,
            0 <= x % scale < scale,
    ;
}

/// The board drawn as a pixel buffer with square cells of side `scale`, row after row.
pub fn board_to_pixels(board: &[[bool; COLS]; ROWS], scale: usize) -> (pixels: Vec<u32>)
    requires
        COLS * scale * (ROWS * scale) <= usize::MAX,
    ensures
        pixels@ == board_pixels(*board, scale as int),
        forall|x: int, y: int|
            0 <= x < COLS * scale && 0 <= y < ROWS * scale ==> #[trigger] pixels@[y * (COLS * scale)
                + x] == pixel_colour(*board, scale as int, x, y),
{
    proof {
        assert(COLS * scale <= usize::MAX && ROWS * scale <= usize::MAX) by (nonlinear_arith)
            requires
                COLS * scale * (ROWS * scale) <= usize::MAX,
        ;
    }
    let width = COLS * scale;
    let height = ROWS * scale;
    let ghost expected = board_pixels(*board, scale as int);
    let mut pixels: Vec<u32> = Vec::new();
    let mut y: usize = 0;
    while y < height
        invariant
            width == COLS * scale,
            height == ROWS * scale,
            width * height <= usize::MAX,
            expected == board_pixels(*board, scale as int),
            0 <= y <= height,
            pixels@.len() == y * width,
            pixels@ == expected.take(y * width),
        decreases height - y,
    {
        proof {
            assert(y * width + width <= width * height) by (nonlinear_arith)
                requires
                    y < height,
                    width >= 0,
            ;
            lemma_cell_of_pixel(y as int, scale as int, ROWS as int);
        }
        let mut x: usize = 0;
        while x < width
            invariant
                width == COLS * scale,
                height == ROWS * scale,
                width * height <= usize::MAX,
                expected == board_pixels(*board, scale as int),
                0 <= y < height,
                0 <= (y as int) / (scale as int) < ROWS,
                y * width + width <= width * height,
                0 <= x <= width,
                pixels@.len() == y * width + x,
                pixels@ == expected.take(y * width + x),
            decreases width - x,
        {
            proof {
                lemma_cell_of_pixel(x as int, scale as int, COLS as int);
                vstd::arithmetic::div_mod::lemma_fundamental_div_mod_converse(
                    y * width + x,
                    width as int,
                    y as int,
                    x as int,
                );
            }
            let colour = if board[y / scale][x / scale] {
                WHITE
            } else {
                BLACK
            };
            pixels.push(colour);
            assert(pixels@ =~= expected.take(y * width + x + 1));
            x += 1;
        }
        assert(y * width + width == (y + 1) * width) by (nonlinear_arith);
        y += 1;
    }
    proof {
        assert(y * width == width * height) by (nonlinear_arith)
            requires
                y == height,
        ;
        assert(pixels@ =~= expected);
        assert forall|x: int, y: int|
            0 <= x < COLS * scale && 0 <= y < ROWS * scale implies #[trigger] pixels@[y * (COLS
                * scale) + x] == pixel_colour(*board, scale as int, x, y) by {
            vstd::arithmetic::div_mod::lemma_fundamental_div_mod_converse(
                y * width + x,
                width as int,
                y,
                x,
            );
            assert(y * width + x < width * height) by (nonlinear_arith)
                requires
                    0 <= x < width,
                    0 <= y < height,
            ;
        }
    }
    pixels
}

/// Whether some input asks to quit.
pub fn should_quit(inputs: &[Input]) -> (quit: bool)
    ensures
        quit == inputs@.contains(Input::Quit),
{
    let mut i: usize = 0;
    while i < inputs.len()
        invariant
            0 <= i <= inputs@.len(),
            forall|j: int| 0 <= j < i ==> inputs@[j] != Input::Quit,
        decreases inputs@.len() - i,
    {
        if inputs[i] == Input::Quit {
            return true;
        }
        i += 1;
    }
    false
}

} // verus!

verus! {

/// A key of the keyboard, as the window library names them; `Unknown` is a key it does not
/// know, and `Count` is the number of keys.
#[derive(Debug, Eq, PartialEq, Clone, Copy, Hash, Structural)]
pub enum Key {
    Key0,
    Key1,
    Key2,
    Key3,
    Key4,
    Key5,
    Key6,
    Key7,
    Key8,
    Key9,
    A,
    B,
    C,
    D,
    E,
    F,
    G,
    H,
    I,
    J,
    K,
    L,
    M,
    N,
    O,
    P,
    Q,
    R,
    S,
    T,
    U,
    V,
    W,
    X,
    Y,
    Z,
    F1,
    F2,
    F3,
    F4,
    F5,
    F6,
    F7,
    F8,
    F9,
    F10,
    F11,
    F12,
    F13,
    F14,
    F15,
    Down,
    Left,
    Right,
    Up,
    Apostrophe,
    Backquote,
    Backslash,
    Comma,
    Equal,
    LeftBracket,
    Minus,
    Period,
    RightBracket,
    Semicolon,
    Slash,
    Backspace,
    Delete,
    End,
    Enter,
    Escape,
    Home,
    Insert,
    Menu,
    PageDown,
    PageUp,
    Pause,
    Space,
    Tab,
    NumLock,
    CapsLock,
    ScrollLock,
    LeftShift,
    RightShift,
    LeftCtrl,
    RightCtrl,
    NumPad0,
    NumPad1,
    NumPad2,
    NumPad3,
    NumPad4,
    NumPad5,
    NumPad6,
    NumPad7,
    NumPad8,
    NumPad9,
    NumPadDot,
    NumPadSlash,
    NumPadAsterisk,
    NumPadMinus,
    NumPadPlus,
    NumPadEnter,
    LeftAlt,
    RightAlt,
    LeftSuper,
    RightSuper,
    Unknown,
    Count,
}

/// The input a key stands for, if any.
pub open spec fn key_input(key: Key) -> Option<Input> {
    match key {
        Key::Left | Key::A => Some(Input::Left),
        Key::Right | Key::D => Some(Input::Right),
        Key::Up | Key::W | Key::Z => Some(Input::RotateCw),
        Key::X => Some(Input::RotateCcw),
        Key::Down | Key::S => Some(Input::SoftDrop),
        Key::Space => Some(Input::HardDrop),
        Key::P => Some(Input::Pause),
        Key::Escape | Key::Q => Some(Input::Quit),
        _ => None,
    }
}

/// The input a key stands for, if any.
pub fn map_key(key: Key) -> (input: Option<Input>)
    ensures
        input == key_input(key),
{
    match key {
        Key::Left | Key::A => Some(Input::Left),
        Key::Right | Key::D => Some(Input::Right),
        Key::Up | Key::W | Key::Z => Some(Input::RotateCw),
        Key::X => Some(Input::RotateCcw),
        Key::Down | Key::S => Some(Input::SoftDrop),
        Key::Space => Some(Input::HardDrop),
        Key::P => Some(Input::Pause),
        Key::Escape | Key::Q => Some(Input::Quit),
        _ => None,
    }
}

} // verus!

use vstd::prelude::*;
use vstd::string::StringSliceAdditionalSpecFns;

verus! {

/// A terminal colour: the sixteen named ones, the terminal's own default, a
/// 24-bit colour, or an entry of the 256-colour palette.
#[derive(Debug, Clone, Copy, PartialEq, Eq, Structural)]
pub enum Color {
    Reset,
    Black,
    DarkGrey,
    Red,
    DarkRed,
    Green,
    DarkGreen,
    Yellow,
    DarkYellow,
    Blue,
    DarkBlue,
    Magenta,
    DarkMagenta,
    Cyan,
    DarkCyan,
    White,
    Grey,
    Rgb { r: u8, g: u8, b: u8 },
    AnsiValue(u8),
}

pub const DEFAULT_BACKGROUND: Color = Color::Black;

pub const DEFAULT_FOREGROUND: Color = Color::Blue;

/// One cell of what is shown: a character with its two colours.
#[derive(Debug, Clone, Copy, PartialEq, Eq, Structural)]
pub struct Element {
    pub value: char,
    pub background: Color,
    pub foreground: Color,
}

impl Element {
    pub fn new(value: char, background: Color, foreground: Color) -> (element: Self)
        ensures
            element == (Element { value, background, foreground }),
    {
        Self { value, background, foreground }
    }

    /// A blank in the default colours.
    pub fn default() -> (element: Self)
        ensures
            element == (Element {
                value: ' ',
                background: DEFAULT_BACKGROUND,
                foreground: DEFAULT_FOREGROUND,
            }),
    {
        Self { value: ' ', background: DEFAULT_BACKGROUND, foreground: DEFAULT_FOREGROUND }
    }

    pub fn new_default_colors(value: char) -> (element: Self)
        ensures
            element == (Element {
                value,
                background: DEFAULT_BACKGROUND,
                foreground: DEFAULT_FOREGROUND,
            }),
    {
        Self { value, background: DEFAULT_BACKGROUND, foreground: DEFAULT_FOREGROUND }
    }
}

impl Default for Element {
    fn default() -> (element: Self)
        ensures
            element == (Element {
                value: ' ',
                background: DEFAULT_BACKGROUND,
                foreground: DEFAULT_FOREGROUND,
            }),
    {
        Self { value: ' ', background: DEFAULT_BACKGROUND, foreground: DEFAULT_FOREGROUND }
    }
}

/// What a character of a text stands for on the grid: a blank leaves the
/// cell transparent, any other character fills it.
pub open spec fn cell_of(character: char, background: Color, foreground: Color) -> Option<Element> {
    if character != ' ' {
        Some(Element { value: character, background, foreground })
    } else {
        None
    }
}

/// The cells of a text of `chars` that takes `len` bytes: one cell for each
/// character, then transparent cells up to `len`.
pub open spec fn str_cells(chars: Seq<char>, len: int, background: Color, foreground: Color) -> Seq<
    Option<Element>,
> {
    Seq::new(
        len as nat,
        |i: int|
            if i < chars.len() {
                cell_of(chars[i], background, foreground)
            } else {
                None
            },
    )
}

/// The colour that was given, or else `default`.
pub open spec fn color_or(color: Option<Color>, default: Color) -> Color {
    match color {
        Some(color) => color,
        None => default,
    }
}

/// A text has at least as many bytes as it has characters.
pub proof fn lemma_chars_within_bytes(chars: Seq<char>)
    ensures
        chars.len() <= vstd::utf8::encode_utf8(chars).len(),
    decreases chars.len(),
{
    if chars.len() > 0 {
        lemma_chars_within_bytes(chars.drop_first());
        assert(vstd::utf8::encode_scalar(chars[0] as u32).len() >= 1);
    }
}

/// Turns a text into the cells of one row. The row is as long as the text
/// has bytes.
pub fn parse_str_to_element_array(
    string_array: &str,
    background: Option<Color>,
    foreground: Option<Color>,
) -> (array: Vec<Option<Element>>)
    ensures
        array@ == str_cells(
            string_array@,
            string_array.spec_bytes().len() as int,
            color_or(background, DEFAULT_BACKGROUND),
            color_or(foreground, DEFAULT_FOREGROUND),
        ),
{
    let background = match background {
        Some(color) => color,
        None => DEFAULT_BACKGROUND,
    };
    let foreground = match foreground {
        Some(color) => color,
        None => DEFAULT_FOREGROUND,
    };
    let len = string_array.as_bytes().len();
    let mut array: Vec<Option<Element>> = Vec::new();
    while array.len() < len
        invariant
            array.len() <= len,
            forall|i: int| 0 <= i < array.len() ==> (#[trigger] array[i]) is None,
        decreases len - array.len(),
    {
        array.push(None);
    }
    proof {
        lemma_chars_within_bytes(string_array@);
    }
    let mut index: usize = 0;
    for character in it: string_array.chars()
        invariant
            it.seq() == string_array@,
            index == it.index(),
            string_array@.len() <= len,
            array.len() == len,
            forall|i: int|
                0 <= i < index ==> #[trigger] array[i] == cell_of(
                    string_array@[i],
                    background,
                    foreground,
                ),
            forall|i: int| index <= i < len ==> (#[trigger] array[i]) is None,
    {
        if character != ' ' {
            array[index] = Some(Element::new(character, background, foreground));
        }
        index = index + 1;
    }
    proof {
        assert(array@ =~= str_cells(string_array@, len as int, background, foreground));
    }
    array
}

} // verus!

use vstd::prelude::*;

verus! {

/// The value of a decimal digit character.
pub open spec fn digit_value(c: char) -> int {
    c as int - '0' as int
}

pub open spec fn is_digit(c: char) -> bool {
    '0' <= c <= '9'
}

/// The value of a non-empty run of decimal digits.
pub open spec fn digits_value(s: Seq<char>) -> int
    decreases s.len(),
{
    if s.len() == 0 {
        0
    } else {
        digits_value(s.drop_last()) * 10 + digit_value(s.last())
    }
}

/// The integer a text denotes as an `i32`: an optional sign, then one or
/// more decimal digits, within range.
pub open spec fn i32_text(s: Seq<char>) -> Option<i32> {
    let neg = s.len() > 0 && s[0] == '-';
    let body = if s.len() > 0 && (s[0] == '-' || s[0] == '+') { s.drop_first() } else { s };
    let n = if neg { -digits_value(body) } else { digits_value(body) };
    if body.len() > 0 && (forall|i: int| 0 <= i < body.len() ==> is_digit(#[trigger] body[i]))
        && i32::MIN <= n <= i32::MAX {
        Some(n as i32)
    } else {
        None
    }
}

/// Relies on `str::parse::<i32>`: an optional `+` or `-` sign followed by
/// decimal digits, whose value fits; anything else is an error.
#[verifier::external_body]
fn parse_i32(s: &str) -> (r: Option<i32>)
    ensures
        r == i32_text(s@),
{
    s.parse::<i32>().ok()
}

/// How a scale is laid out.
#[derive(Clone, Copy, PartialEq, Eq, Debug)]
pub enum Orientation {
    Horizontal,
    Vertical,
}

/// The configuration shared by all dialogs.
#[derive(Debug)]
pub struct BaseConfig {
    pub width: i32,
    pub height: i32,
    pub posx: i32,
    pub posy: i32,
    pub close_unfocus: bool,
    pub class: String,
}

/// The configuration of the scale dialog.
#[derive(Debug)]
pub struct ScaleConfig {
    pub val: i32,
    pub max_val: i32,
    pub min_val: i32,
    pub step: i32,
    pub mark: Option<(i32, String)>,
    pub orientation: Orientation,
    pub hide_value: bool,
}

/// The configuration of the calendar dialog.
#[derive(Debug)]
pub struct CalendarConfig {
    pub dummy: i32,
}

#[derive(Debug)]
pub enum WidgetConfig {
    Scale(ScaleConfig),
    Calendar(CalendarConfig),
}

/// The base configuration together with the dialog's own.
#[derive(Debug)]
pub struct Config {
    pub base_config: BaseConfig,
    pub widget_config: WidgetConfig,
}

impl Config {
    pub fn new(base_config: BaseConfig, widget_config: WidgetConfig) -> (r: Config)
        ensures
            r.base_config == base_config,
            r.widget_config == widget_config,
    {
        Config { base_config, widget_config }
    }

    pub fn width(&self) -> (r: i32)
        ensures
            r == self.base_config.width,
    {
        self.base_config.width
    }

    pub fn height(&self) -> (r: i32)
        ensures
            r == self.base_config.height,
    {
        self.base_config.height
    }

    pub fn class(&self) -> (r: &String)
        ensures
            r == &self.base_config.class,
    {
        &self.base_config.class
    }

    pub fn posx(&self) -> (r: i32)
        ensures
            r == self.base_config.posx,
    {
        self.base_config.posx
    }

    pub fn posy(&self) -> (r: i32)
        ensures
            r == self.base_config.posy,
    {
        self.base_config.posy
    }

    pub fn close_unfocus(&self) -> (r: bool)
        ensures
            r == self.base_config.close_unfocus,
    {
        self.base_config.close_unfocus
    }

    pub fn widget_config(&self) -> (r: &WidgetConfig)
        ensures
            r == &self.widget_config,
    {
        &self.widget_config
    }
}

impl ScaleConfig {
    pub fn val(&self) -> (r: i32)
        ensures
            r == self.val,
    {
        self.val
    }

    pub fn min_val(&self) -> (r: i32)
        ensures
            r == self.min_val,
    {
        self.min_val
    }

    pub fn max_val(&self) -> (r: i32)
        ensures
            r == self.max_val,
    {
        self.max_val
    }

    pub fn orientation(&self) -> (r: Orientation)
        ensures
            r == self.orientation,
    {
        self.orientation
    }

    pub fn step(&self) -> (r: i32)
        ensures
            r == self.step,
    {
        self.step
    }

    pub fn hide_value(&self) -> (r: bool)
        ensures
            r == self.hide_value,
    {
        self.hide_value
    }

    pub fn mark(&self) -> (r: &Option<(i32, String)>)
        ensures
            r == &self.mark,
    {
        &self.mark
    }
}

impl CalendarConfig {
    pub fn new() -> (r: CalendarConfig)
        ensures
            r.dummy == 3,
    {
        CalendarConfig { dummy: 3 }
    }
}

/// The text given, or `dflt` where none was.
pub open spec fn or_default(s: Option<&str>, dflt: Seq<char>) -> Seq<char> {
    match s {
        Some(t) => t@,
        None => dflt,
    }
}

/// The index of the first `:` at or after `i`.
pub open spec fn colon_from(s: Seq<char>, i: int) -> Option<int>
    decreases s.len() - i,
{
    if i < 0 || i >= s.len() {
        None
    } else if s[i] == ':' {
        Some(i)
    } else {
        colon_from(s, i + 1)
    }
}

/// The text up to the first `:`, or all of it.
pub open spec fn first_piece(s: Seq<char>) -> Seq<char> {
    match colon_from(s, 0) {
        Some(i) => s.take(i),
        None => s,
    }
}

/// A mark given as `TEXT:POSITION` (anything after a second `:` is
/// ignored): its position and text, or what is wrong with it.
pub open spec fn mark_text(s: Seq<char>) -> Result<(i32, Seq<char>), Seq<char>> {
    match colon_from(s, 0) {
        None => Err("mark argument provided but not position"@),
        Some(i) => match i32_text(first_piece(s.skip(i + 1))) {
            None => Err("not a valid position for a mark"@),
            Some(p) => Ok((p, s.take(i))),
        },
    }
}

/// The index of the first `:` of `s`.
fn find_colon(s: &str) -> (r: Option<usize>)
    ensures
        r matches Some(i) ==> colon_from(s@, 0) == Some(i as int) && i < s@.len(),
        r is None ==> colon_from(s@, 0) is None,
{
    let n = s.unicode_len();
    let mut i: usize = 0;
    while i < n
        invariant
            n == s@.len(),
            i <= n,
            colon_from(s@, 0) == colon_from(s@, i as int),
        decreases n - i,
    {
        if s.get_char(i) == ':' {
            return Some(i);
        }
        i = i + 1;
    }
    None
}

/// Reads a mark given as `TEXT:POSITION`.
pub fn parse_mark(s: &str) -> (r: Result<(i32, String), String>)
    ensures
        match mark_text(s@) {
            Ok((p, t)) => r matches Ok((q, u)) && q == p && u@ == t,
            Err(msg) => r matches Err(e) && e@ == msg,
        },
{
    match find_colon(s) {
        None => Err(String::from_str("mark argument provided but not position")),
        Some(i) => {
            let n = s.unicode_len();
            let text = s.substring_char(0, i);
            let rest = s.substring_char(i + 1, n);
            assert(rest@ =~= s@.skip(i + 1));
            let pos_text = match find_colon(rest) {
                Some(j) => rest.substring_char(0, j),
                None => rest,
            };
            match parse_i32(pos_text) {
                None => Err(String::from_str("not a valid position for a mark")),
                Some(p) => Ok((p, String::from_str(text))),
            }
        },
    }
}

impl BaseConfig {
    /// Reads the shared configuration from the values given for each
    /// option: a missing width or height counts as `0`, a missing class as
    /// empty, and the window closes on unfocus when that flag was given once.
    pub fn new(
        width: Option<&str>,
        height: Option<&str>,
        posx: &str,
        posy: &str,
        class: Option<&str>,
        close_unfocus_occurrences: u64,
    ) -> (r: Result<BaseConfig, String>)
        ensures
            i32_text(or_default(width, "0"@)) is None ==> (r matches Err(e) && e@ == "Width is not an integer"@),
            i32_text(or_default(width, "0"@)) is Some && i32_text(or_default(height, "0"@)) is None
                ==> (r matches Err(e) && e@ == "Height is not an integer"@),
            i32_text(or_default(width, "0"@)) is Some && i32_text(or_default(height, "0"@)) is Some
                && i32_text(posx@) is None ==> (r matches Err(e) && e@ == "posx is not an integer"@),
            i32_text(or_default(width, "0"@)) is Some && i32_text(or_default(height, "0"@)) is Some
                && i32_text(posx@) is Some && i32_text(posy@) is None ==> (r matches Err(e) && e@ == "posy is not an integer"@),
            r matches Ok(c) ==> Some(c.width) == i32_text(or_default(width, "0"@)) && Some(c.height)
                == i32_text(or_default(height, "0"@)) && Some(c.posx) == i32_text(posx@) && Some(
                c.posy,
            ) == i32_text(posy@) && c.class@ == or_default(class, ""@) && c.close_unfocus == (
            close_unfocus_occurrences == 1),
            r is Ok <==> (i32_text(or_default(width, "0"@)) is Some && i32_text(
                or_default(height, "0"@),
            ) is Some && i32_text(posx@) is Some && i32_text(posy@) is Some),
    {
        let width = match parse_i32(
            match width {
                Some(w) => w,
                None => "0",
            },
        ) {
            Some(w) => w,
            None => return Err(String::from_str("Width is not an integer")),
        };
        let height = match parse_i32(
            match height {
                Some(h) => h,
                None => "0",
            },
        ) {
            Some(h) => h,
            None => return Err(String::from_str("Height is not an integer")),
        };
        let posx = match parse_i32(posx) {
            Some(x) => x,
            None => return Err(String::from_str("posx is not an integer")),
        };
        let posy = match parse_i32(posy) {
            Some(y) => y,
            None => return Err(String::from_str("posy is not an integer")),
        };
        let class = String::from_str(
            match class {
                Some(c) => c,
                None => "",
            },
        );
        Ok(BaseConfig { width, height, posx, posy, close_unfocus: close_unfocus_occurrences == 1, class })
    }

    pub fn orientation(&self) {
    }
}

impl ScaleConfig {
    /// Reads the scale's configuration from the values given for each
    /// option; a flag counts when it was given once.
    pub fn new(
        max_val: &str,
        min_val: &str,
        val: &str,
        step: &str,
        vertical_occurrences: u64,
        hide_value_occurrences: u64,
        mark: Option<&str>,
    ) -> (r: Result<ScaleConfig, String>)
        ensures
            i32_text(max_val@) is None ==> (r matches Err(e) && e@ == "max-value is not an integer"@),
            i32_text(max_val@) is Some && i32_text(min_val@) is None ==> (r matches Err(e) && e@ == "min-value is not an integer"@),
            i32_text(max_val@) is Some && i32_text(min_val@) is Some && i32_text(val@) is None
                ==> (r matches Err(e) && e@ == "value is not an integer"@),
            i32_text(max_val@) is Some && i32_text(min_val@) is Some && i32_text(val@) is Some
                && i32_text(step@) is None ==> (r matches Err(e) && e@ == "step is not an integer"@),
            i32_text(max_val@) is Some && i32_text(min_val@) is Some && i32_text(val@) is Some
                && i32_text(step@) is Some ==> match mark {
                None => r is Ok,
                Some(m) => match mark_text(m@) {
                    Ok(_) => r is Ok,
                    Err(msg) => r matches Err(e) && e@ == msg,
                },
            },
            r matches Ok(c) ==> Some(c.max_val) == i32_text(max_val@) && Some(c.min_val) == i32_text(
                min_val@,
            ) && Some(c.val) == i32_text(val@) && Some(c.step) == i32_text(step@) && c.orientation
                == (if vertical_occurrences == 1 {
                Orientation::Vertical
            } else {
                Orientation::Horizontal
            }) && c.hide_value == (hide_value_occurrences == 1) && match mark {
                None => c.mark is None,
                Some(m) => (c.mark matches Some((p, t)) && mark_text(m@) == Ok::<
                    (i32, Seq<char>),
                    Seq<char>,
                >((p, t@))),
            },
    {
        let max_val = match parse_i32(max_val) {
            Some(x) => x,
            None => return Err(String::from_str("max-value is not an integer")),
        };
        let min_val = match parse_i32(min_val) {
            Some(x) => x,
            None => return Err(String::from_str("min-value is not an integer")),
        };
        let val = match parse_i32(val) {
            Some(x) => x,
            None => return Err(String::from_str("value is not an integer")),
        };
        let step = match parse_i32(step) {
            Some(x) => x,
            None => return Err(String::from_str("step is not an integer")),
        };
        let orientation = if vertical_occurrences == 1 {
            Orientation::Vertical
        } else {
            Orientation::Horizontal
        };
        let mark = match mark {
            None => None,
            Some(m) => match parse_mark(m) {
                Ok(pt) => Some(pt),
                Err(e) => return Err(e),
            },
        };
        Ok(ScaleConfig {
            val,
            max_val,
            min_val,
            step,
            mark,
            orientation,
            hide_value: hide_value_occurrences == 1,
        })
    }
}

} // verus!

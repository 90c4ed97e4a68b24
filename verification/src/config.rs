//! Optional configuration: a settings file, and the same settings given on
//! the command line.
//!
//! Only a flat subset of TOML is understood - `key = value` pairs with string,
//! number, boolean and string-array values - which is all the settings need.
//! A malformed file is never fatal: bad lines are reported and the default is
//! kept, so a typo cannot leave the user without a sheep.

use vstd::prelude::*;
use vstd::slice::slice_subrange;

use crate::fixed::{quotient_of, Fixed, UNIT};
use crate::number::{one, ratio, Number};
use crate::text::{
    begins_with, chars_of, copied, find_char, has_char, is_word, lines, lines_of, pieces,
    place_of, read_signed, read_whole, same_text, signed_number, split, starts_with, string_of,
    texts, trim, trimmed, whole_number,
};

verus! {

/// The texts a list of strings holds.
pub open spec fn strings(v: Seq<String>) -> Seq<Seq<char>> {
    v.map_values(|s: String| s@)
}

/// Which monitors the sheep may be on.
#[derive(Clone, Debug, PartialEq)]
pub enum Monitors {
    /// Every output.
    All,
    /// Only these connector names, e.g. `eDP-1`.
    Only(Vec<String>),
}

impl View for Monitors {
    type V = Option<Seq<Seq<char>>>;

    /// The names, unless every output is meant.
    open spec fn view(&self) -> Option<Seq<Seq<char>>> {
        match self {
            Monitors::All => None,
            Monitors::Only(list) => Some(strings(list@)),
        }
    }
}

impl Monitors {
    /// May the sheep be on the output of this name?
    pub fn allows(&self, name: &str) -> (r: bool)
        ensures
            r == match self@ {
                None => true,
                Some(names) => names.contains(name@),
            },
    {
        match self {
            Monitors::All => true,
            Monitors::Only(list) => {
                let wanted = chars_of(name);
                let mut i: usize = 0;
                while i < list.len()
                    invariant
                        i <= list@.len(),
                        wanted@ == name@,
                        self@ == Some(strings(list@)),
                        forall|j: int| 0 <= j < i ==> strings(list@)[j] != name@,
                    decreases list@.len() - i,
                {
                    let here = chars_of(list[i].as_str());
                    if same_text(here.as_slice(), wanted.as_slice()) {
                        assert(strings(list@)[i as int] == name@);
                        return true;
                    }
                    i = i + 1;
                }
                false
            },
        }
    }
}

/// The settings.
#[derive(Clone, Debug, PartialEq)]
pub struct Config<N> {
    /// How many sheep to keep on screen.
    pub sheep: usize,
    /// How big to draw the sheep, as a multiple of the sprite's own size.
    pub scale: N,
    /// How fast the sheep lives, as a multiple of its natural pace.
    pub speed: N,
    /// How many times a second to redraw between the sheep's own steps, so
    /// that walking and falling glide rather than jump. 0 turns it off and
    /// leaves the sheep moving in the discrete hops the pet file describes.
    pub smooth: u32,
    pub monitors: Monitors,
    /// Whether the sheep can be picked up with the mouse. When off, the
    /// overlay stays entirely click-through.
    pub draggable: bool,
    /// Whether letting go of a moving sheep throws it. Off, it is simply
    /// dropped from wherever the mouse left it.
    pub throw: bool,
    /// Whether window sides are solid. Off, windows are ledges only; on, the
    /// sheep bumps into their sides and can climb them.
    pub climb_windows: bool,
    /// Whether to take the sheep off a monitor showing a fullscreen window.
    /// The sheep carries on living there unseen; it is only not drawn.
    pub hide_fullscreen: bool,
    /// An alternative pet file in the same XML format. The sprite sheet is
    /// taken from the file itself.
    pub pet: Option<String>,
    /// Log every animation change and where the sheep is.
    pub trace: bool,
}

/// What the settings say.
pub struct Settings<N> {
    pub sheep: usize,
    pub scale: N,
    pub speed: N,
    pub smooth: u32,
    pub monitors: Option<Seq<Seq<char>>>,
    pub draggable: bool,
    pub throw: bool,
    pub climb_windows: bool,
    pub hide_fullscreen: bool,
    pub pet: Option<Seq<char>>,
    pub trace: bool,
}

impl<N> View for Config<N> {
    type V = Settings<N>;

    open spec fn view(&self) -> Settings<N> {
        Settings {
            sheep: self.sheep,
            scale: self.scale,
            speed: self.speed,
            smooth: self.smooth,
            monitors: self.monitors@,
            draggable: self.draggable,
            throw: self.throw,
            climb_windows: self.climb_windows,
            hide_fullscreen: self.hide_fullscreen,
            pet: match self.pet {
                Some(p) => Some(p@),
                None => None,
            },
            trace: self.trace,
        }
    }
}

/// The settings of someone who has set nothing.
pub open spec fn default_settings<N: Number>() -> Settings<N> {
    Settings {
        sheep: 1,
        scale: one(),
        speed: one(),
        smooth: 60,
        monitors: None,
        draggable: true,
        throw: true,
        climb_windows: true,
        hide_fullscreen: true,
        pet: None,
        trace: false,
    }
}

impl<N: Number> Default for Config<N> {
    fn default() -> (r: Self)
        ensures
            r@ == default_settings::<N>(),
    {
        Config {
            sheep: 1,
            scale: one(),
            speed: one(),
            smooth: 60,
            monitors: Monitors::All,
            draggable: true,
            throw: true,
            climb_windows: true,
            hide_fullscreen: true,
            pet: None,
            trace: false,
        }
    }
}

// -- what values are sensible --

/// The sheep may be shrunk or blown up, but not to nothing or to absurdity:
/// below a tenth it is a speck, above this it is a wall of wool.
pub const SCALE_MAX: i64 = 20;

/// Is this a size for a sheep?
#[verifier::allow_in_spec]
pub fn scale_ok<N: Number>(f: N) -> bool
    returns
        f.finite() && ratio::<N>(1, 10).at_most(f) && f.at_most(N::whole(SCALE_MAX)),
{
    f.finite() && ratio::<N>(1, 10).at_most(f) && f.at_most(N::whole(SCALE_MAX))
}

/// Likewise the pace: slow enough to watch, fast enough to still be a sheep.
pub const SPEED_MAX: i64 = 10;

/// Is this a pace for a sheep?
#[verifier::allow_in_spec]
pub fn speed_ok<N: Number>(f: N) -> bool
    returns
        f.finite() && ratio::<N>(1, 10).at_most(f) && f.at_most(N::whole(SPEED_MAX)),
{
    f.finite() && ratio::<N>(1, 10).at_most(f) && f.at_most(N::whole(SPEED_MAX))
}

/// Interpolation is capped at a rate no display will outrun; 0 is the one
/// value below the floor that means something, namely "don't".
pub const SMOOTH_MAX: i64 = 240;

/// Is this a rate to redraw at?
#[verifier::allow_in_spec]
pub fn smooth_ok(n: i64) -> bool
    returns
        0 <= n && n <= SMOOTH_MAX,
{
    0 <= n && n <= SMOOTH_MAX
}

// -- paths --

/// The path of `rest` inside `base`: an absolute one stands by itself, else
/// one separator comes between the two.
pub open spec fn joined(base: Seq<char>, rest: Seq<char>) -> Seq<char> {
    if rest.len() > 0 && rest[0] == '/' {
        rest
    } else if base.len() > 0 && base.last() != '/' {
        base + seq!['/'] + rest
    } else {
        base + rest
    }
}

/// Appends text.
fn append(out: &mut String, s: &[char])
    ensures
        final(out)@ == old(out)@ + s@,
{
    let mut i: usize = 0;
    while i < s.len()
        invariant
            i <= s@.len(),
            out@ == old(out)@ + s@.take(i as int),
        decreases s@.len() - i,
    {
        out.push(s[i]);
        i = i + 1;
        assert(s@.take(i as int) == s@.take(i - 1).push(s@[i - 1]));
    }
    assert(s@.take(i as int) == s@);
}

/// The path of `rest` inside `base`.
pub fn join(base: &[char], rest: &[char]) -> (r: String)
    ensures
        r@ == joined(base@, rest@),
{
    if rest.len() > 0 && rest[0] == '/' {
        return string_of(rest);
    }
    let mut out = string_of(base);
    if base.len() > 0 && base[base.len() - 1] != '/' {
        out.push('/');
        assert(out@ == base@ + seq!['/']);
    }
    append(&mut out, rest);
    out
}

/// The path a setting means: `~/` stands for the home directory.
pub open spec fn expanded(s: Seq<char>, home: Option<Seq<char>>) -> Seq<char> {
    match home {
        Some(home) if begins_with(s, "~/"@) => joined(home, s.skip(2)),
        _ => s,
    }
}

/// The text of an option.
pub open spec fn text_of(s: Option<&str>) -> Option<Seq<char>> {
    match s {
        Some(s) => Some(s@),
        None => None,
    }
}

/// Put the home directory in place of a leading `~/`. Without a home directory
/// the path is left alone rather than mangled.
pub fn expand_tilde(s: &str, home: Option<&str>) -> (r: String)
    ensures
        r@ == expanded(s@, text_of(home)),
{
    proof {
        reveal_strlit("~/");
    }
    let path = chars_of(s);
    if let Some(home) = home {
        let tilde = chars_of("~/");
        if starts_with(path.as_slice(), tilde.as_slice()) {
            let base = chars_of(home);
            let rest = slice_subrange(path.as_slice(), 2, path.len());
            assert(rest@ == s@.skip(2));
            return join(base.as_slice(), rest);
        }
    }
    string_of(path.as_slice())
}

/// Where the settings file is.
pub open spec fn file_path(xdg: Option<Seq<char>>, home: Option<Seq<char>>) -> Option<Seq<char>> {
    let inside = |base: Seq<char>| joined(joined(base, "hyprsheep"@), "config.toml"@);
    match (xdg, home) {
        (Some(base), _) if base.len() > 0 => Some(inside(base)),
        (_, Some(home)) => Some(inside(joined(home, ".config"@))),
        _ => None,
    }
}

/// `$XDG_CONFIG_HOME/hyprsheep/config.toml`, falling back to `~/.config`.
pub fn path(xdg: Option<&str>, home: Option<&str>) -> (r: Option<String>)
    ensures
        match r {
            Some(p) => file_path(text_of(xdg), text_of(home)) == Some(p@),
            None => file_path(text_of(xdg), text_of(home)) is None,
        },
{
    let own = match xdg {
        Some(base) => chars_of(base),
        None => Vec::new(),
    };
    let base = if own.len() > 0 {
        own
    } else {
        match home {
            Some(home) => {
                let dir = chars_of(home);
                let config = chars_of(".config");
                chars_of(join(dir.as_slice(), config.as_slice()).as_str())
            },
            None => {
                return None;
            },
        }
    };
    let name = chars_of("hyprsheep");
    let dir = chars_of(join(base.as_slice(), name.as_slice()).as_str());
    let file = chars_of("config.toml");
    Some(join(dir.as_slice(), file.as_slice()))
}

// -- the file --

/// A value as written in the file.
#[derive(Clone, Debug, PartialEq)]
pub enum Value<N> {
    Str(Vec<char>),
    Int(i64),
    Float(N),
    Bool(bool),
    List(Vec<Vec<char>>),
}

/// What a value says.
pub enum Meaning<N> {
    Str(Seq<char>),
    Int(i64),
    Float(N),
    Bool(bool),
    List(Seq<Seq<char>>),
}

impl<N> View for Value<N> {
    type V = Meaning<N>;

    open spec fn view(&self) -> Meaning<N> {
        match self {
            Value::Str(s) => Meaning::Str(s@),
            Value::Int(n) => Meaning::Int(*n),
            Value::Float(f) => Meaning::Float(*f),
            Value::Bool(b) => Meaning::Bool(*b),
            Value::List(l) => Meaning::List(texts(l@)),
        }
    }
}

/// Where the comment starts, if it is not inside a quoted string.
pub open spec fn comment_from(s: Seq<char>, i: int, quoted: bool) -> int
    decreases s.len() - i,
{
    if 0 <= i < s.len() {
        if s[i] == '"' {
            comment_from(s, i + 1, !quoted)
        } else if s[i] == '#' && !quoted {
            i
        } else {
            comment_from(s, i + 1, quoted)
        }
    } else {
        s.len() as int
    }
}

/// Drop a trailing `#` comment, ignoring one inside a quoted string.
pub fn strip_comment(line: &[char]) -> (r: &[char])
    ensures
        r@ == line@.take(comment_from(line@, 0, false)),
        0 <= comment_from(line@, 0, false) <= line@.len(),
{
    let mut quoted = false;
    let mut i: usize = 0;
    while i < line.len()
        invariant
            i <= line@.len(),
            comment_from(line@, 0, false) == comment_from(line@, i as int, quoted),
        decreases line@.len() - i,
    {
        let c: char = line[i];
        if c == '"' {
            quoted = !quoted;
        } else if c == '#' && !quoted {
            return slice_subrange(line, 0, i);
        }
        i = i + 1;
    }
    assert(line@.take(i as int) == line@);
    line
}

/// The text a word stands for: a quoted string, or a bare word, which is what
/// people actually type.
pub open spec fn unquoted(s: Seq<char>) -> Option<Seq<char>> {
    let s = trimmed(s);
    if s.len() >= 2 && s[0] == '"' && s.last() == '"' {
        Some(s.subrange(1, s.len() - 1))
    } else if s.len() > 0 && !s.contains('"') && !s.contains('[') && !s.contains(']') {
        Some(s)
    } else {
        None
    }
}

/// Take the quotes off.
pub fn unquote(s: &[char]) -> (r: Option<Vec<char>>)
    ensures
        match r {
            Some(t) => unquoted(s@) == Some(t@),
            None => unquoted(s@) is None,
        },
{
    let s = trim(s);
    let n: usize = s.len();
    if n >= 2 && s[0] == '"' && s[n - 1] == '"' {
        Some(copied(slice_subrange(s, 1, n - 1)))
    } else if n > 0 && !has_char(s, '"') && !has_char(s, '[') && !has_char(s, ']') {
        Some(copied(s))
    } else {
        None
    }
}

/// The pieces from place `i` on, each trimmed, without the empty ones.
pub open spec fn names_from(list: Seq<Seq<char>>, i: int) -> Seq<Seq<char>>
    decreases list.len() - i,
{
    if 0 <= i < list.len() {
        let name = trimmed(list[i]);
        if name.len() > 0 {
            seq![name] + names_from(list, i + 1)
        } else {
            names_from(list, i + 1)
        }
    } else {
        seq![]
    }
}

/// The names in a list with commas between them.
pub open spec fn names_in(s: Seq<char>) -> Seq<Seq<char>> {
    names_from(pieces(s, ','), 0)
}

/// The names in a list with commas between them.
fn names(s: &[char]) -> (r: Vec<Vec<char>>)
    ensures
        texts(r@) == names_in(s@),
{
    let list = split(s, ',');
    let ghost all = texts(list@);
    let mut out: Vec<Vec<char>> = Vec::new();
    let mut i: usize = 0;
    assert(texts(out@) == Seq::<Seq<char>>::empty());
    while i < list.len()
        invariant
            i <= list@.len(),
            all == texts(list@),
            names_from(all, 0) == texts(out@) + names_from(all, i as int),
        decreases list@.len() - i,
    {
        let name = trim(list[i].as_slice());
        assert(name@ == trimmed(all[i as int]));
        if name.len() > 0 {
            let ghost before = texts(out@);
            let word = copied(name);
            out.push(word);
            assert(texts(out@) == before.push(word@));
            assert(before + (seq![word@] + names_from(all, i + 1)) == texts(out@) + names_from(
                all,
                i + 1,
            ));
        }
        i = i + 1;
    }
    assert(texts(out@) + names_from(all, i as int) == texts(out@));
    out
}

/// The words from place `i` on with their quotes off, if each of them is one.
pub open spec fn unquoted_from(list: Seq<Seq<char>>, i: int) -> Option<Seq<Seq<char>>>
    decreases list.len() - i,
{
    if 0 <= i < list.len() {
        match (unquoted(list[i]), unquoted_from(list, i + 1)) {
            (Some(word), Some(rest)) => Some(seq![word] + rest),
            _ => None,
        }
    } else {
        Some(seq![])
    }
}

proof fn lemma_one_bad_word(list: Seq<Seq<char>>, i: int, k: int)
    requires
        0 <= i <= k < list.len(),
        unquoted(list[k]) is None,
    ensures
        unquoted_from(list, i) is None,
    decreases k - i,
{
    if i < k {
        lemma_one_bad_word(list, i + 1, k);
    }
}

/// Take the quotes off each word.
fn unquote_all(list: &Vec<Vec<char>>) -> (r: Option<Vec<Vec<char>>>)
    ensures
        match r {
            Some(l) => unquoted_from(texts(list@), 0) == Some(texts(l@)),
            None => unquoted_from(texts(list@), 0) is None,
        },
{
    let ghost all = texts(list@);
    let mut out: Vec<Vec<char>> = Vec::new();
    let mut i: usize = list.len();
    assert(texts(out@) == Seq::<Seq<char>>::empty());
    while i > 0
        invariant
            i <= list@.len(),
            all == texts(list@),
            unquoted_from(all, i as int) == Some(texts(out@)),
        decreases i,
    {
        i = i - 1;
        match unquote(list[i].as_slice()) {
            Some(word) => {
                let ghost before = texts(out@);
                assert(unquoted(all[i as int]) == Some(word@));
                let ghost text = word@;
                out.insert(0, word);
                assert(texts(out@) == seq![text] + before);
            },
            None => {
                proof {
                    assert(unquoted(all[i as int]) is None);
                    lemma_one_bad_word(all, 0, i as int);
                }
                return None;
            },
        }
    }
    Some(out)
}

/// Is it written the way people write a number with a fraction? Only with a
/// point or an exponent; anything else that reads as one (`inf`, `nan`) is not
/// what the user meant.
pub open spec fn written_as_a_fraction(s: Seq<char>) -> bool {
    s.contains('.') || s.contains('e') || s.contains('E')
}

/// What a value says, if it can be read.
pub open spec fn value_of<N: Number>(s: Seq<char>) -> Option<Meaning<N>> {
    if s == "true"@ {
        Some(Meaning::Bool(true))
    } else if s == "false"@ {
        Some(Meaning::Bool(false))
    } else if let Some(n) = signed_number(s) {
        Some(Meaning::Int(n))
    } else if written_as_a_fraction(s) && (N::spec_read(s) matches Some(f) && f.finite()) {
        Some(Meaning::Float(N::spec_read(s)->0))
    } else if s.len() >= 2 && s[0] == '[' && s.last() == ']' {
        match unquoted_from(names_in(s.subrange(1, s.len() - 1)), 0) {
            Some(list) => Some(Meaning::List(list)),
            None => None,
        }
    } else {
        match unquoted(s) {
            Some(word) => Some(Meaning::Str(word)),
            None => None,
        }
    }
}

/// Reads a number written with a fraction.
fn read_fraction<N: Number>(s: &[char]) -> (r: Option<N>)
    ensures
        match r {
            Some(f) => written_as_a_fraction(s@) && N::spec_read(s@) == Some(f) && f.finite(),
            None => !(written_as_a_fraction(s@) && (N::spec_read(s@) matches Some(f)
                && f.finite())),
        },
{
    if has_char(s, '.') || has_char(s, 'e') || has_char(s, 'E') {
        match N::read(string_of(s).as_str()) {
            Some(f) => if f.finite() {
                Some(f)
            } else {
                None
            },
            None => None,
        }
    } else {
        None
    }
}

/// Reads a value.
pub fn parse_value<N: Number>(s: &[char]) -> (r: Option<Value<N>>)
    ensures
        match r {
            Some(v) => value_of::<N>(s@) == Some(v@),
            None => value_of::<N>(s@) is None,
        },
{
    proof {
        reveal_strlit("true");
        reveal_strlit("false");
    }
    if is_word(s, "true") {
        return Some(Value::Bool(true));
    }
    if is_word(s, "false") {
        return Some(Value::Bool(false));
    }
    if let Some(n) = read_signed(s) {
        return Some(Value::Int(n));
    }
    if let Some(f) = read_fraction::<N>(s) {
        return Some(Value::Float(f));
    }
    let n: usize = s.len();
    if n >= 2 && s[0] == '[' && s[n - 1] == ']' {
        let list = names(slice_subrange(s, 1, n - 1));
        return match unquote_all(&list) {
            Some(words) => Some(Value::List(words)),
            None => None,
        };
    }
    match unquote(s) {
        Some(word) => Some(Value::Str(word)),
        None => None,
    }
}

/// One line of the file.
#[derive(Clone, Debug, PartialEq)]
pub enum Line<N> {
    Blank,
    /// Something that is not `key = value`.
    NoEquals,
    /// A value that cannot be read, and the key it is for.
    Unreadable(Vec<char>),
    Entry(Vec<char>, Value<N>),
}

/// What a line says.
pub enum LineMeaning<N> {
    Blank,
    NoEquals,
    Unreadable(Seq<char>),
    Entry(Seq<char>, Meaning<N>),
}

impl<N> View for Line<N> {
    type V = LineMeaning<N>;

    open spec fn view(&self) -> LineMeaning<N> {
        match self {
            Line::Blank => LineMeaning::Blank,
            Line::NoEquals => LineMeaning::NoEquals,
            Line::Unreadable(key) => LineMeaning::Unreadable(key@),
            Line::Entry(key, value) => LineMeaning::Entry(key@, value@),
        }
    }
}

/// What a line says, comment and all.
pub open spec fn line_of<N: Number>(raw: Seq<char>) -> LineMeaning<N> {
    let line = trimmed(raw.take(comment_from(raw, 0, false)));
    let k = place_of(line, '=', 0);
    if line.len() == 0 {
        LineMeaning::Blank
    } else if k == line.len() {
        LineMeaning::NoEquals
    } else {
        let key = trimmed(line.take(k));
        match value_of(trimmed(line.skip(k + 1))) {
            Some(v) => LineMeaning::Entry(key, v),
            None => LineMeaning::Unreadable(key),
        }
    }
}

/// Reads a line.
pub fn parse_line<N: Number>(raw: &[char]) -> (r: Line<N>)
    ensures
        r@ == line_of::<N>(raw@),
{
    let line = trim(strip_comment(raw));
    if line.len() == 0 {
        return Line::Blank;
    }
    let k = find_char(line, '=', 0);
    if k == line.len() {
        return Line::NoEquals;
    }
    let before = slice_subrange(line, 0, k);
    let after = slice_subrange(line, k + 1, line.len());
    assert(before@ == line@.take(k as int));
    assert(after@ == line@.skip(k + 1));
    let key = copied(trim(before));
    match parse_value(trim(after)) {
        Some(v) => Line::Entry(key, v),
        None => Line::Unreadable(key),
    }
}

/// What the lines say.
pub open spec fn said<N>(v: Seq<Line<N>>) -> Seq<LineMeaning<N>> {
    v.map_values(|l: Line<N>| l@)
}

/// What the lines of a text say.
pub open spec fn lines_said<N: Number>(text: Seq<char>) -> Seq<LineMeaning<N>> {
    lines_of(text).map_values(|raw: Seq<char>| line_of::<N>(raw))
}

/// Reads every line.
fn parse_lines<N: Number>(text: &str) -> (r: Vec<Line<N>>)
    ensures
        said(r@) == lines_said::<N>(text@),
{
    let chars = chars_of(text);
    let raw = lines(chars.as_slice());
    let mut out: Vec<Line<N>> = Vec::new();
    let mut i: usize = 0;
    while i < raw.len()
        invariant
            i <= raw@.len(),
            out@.len() == i,
            forall|j: int| 0 <= j < i ==> (#[trigger] out@[j])@ == line_of::<N>(raw@[j]@),
        decreases raw@.len() - i,
    {
        out.push(parse_line(raw[i].as_slice()));
        i = i + 1;
    }
    assert(said(out@) =~= lines_said::<N>(text@)) by {
        assert forall|j: int| 0 <= j < out@.len() implies said(out@)[j] == lines_said::<N>(
            text@,
        )[j] by {
            assert(out@[j]@ == line_of::<N>(raw@[j]@));
            assert(texts(raw@)[j] == raw@[j]@);
        }
    }
    out
}

/// The value a key has in the first `n` lines: the last one given.
pub open spec fn last_value<N>(lines: Seq<LineMeaning<N>>, key: Seq<char>, n: int) -> Option<
    Meaning<N>,
>
    decreases n,
{
    if 0 < n <= lines.len() {
        match lines[n - 1] {
            LineMeaning::Entry(k, v) if k == key => Some(v),
            _ => last_value(lines, key, n - 1),
        }
    } else {
        None
    }
}

/// Finds the value a key has.
fn find_last<'a, N: Number>(lines: &'a Vec<Line<N>>, key: &str) -> (r: Option<&'a Value<N>>)
    ensures
        match r {
            Some(v) => last_value(said(lines@), key@, lines@.len() as int) == Some(v@),
            None => last_value(said(lines@), key@, lines@.len() as int) is None,
        },
{
    let ghost all = said(lines@);
    let mut n: usize = lines.len();
    while n > 0
        invariant
            n <= lines@.len(),
            all == said(lines@),
            last_value(all, key@, lines@.len() as int) == last_value(all, key@, n as int),
        decreases n,
    {
        assert(all[n - 1] == lines@[n - 1]@);
        match &lines[n - 1] {
            Line::Entry(k, v) => {
                if is_word(k.as_slice(), key) {
                    return Some(v);
                }
            },
            _ => {},
        }
        n = n - 1;
    }
    None
}

/// A switch, if the value is one.
pub open spec fn switch_or<N>(v: Option<Meaning<N>>, default: bool) -> bool {
    match v {
        Some(Meaning::Bool(b)) => b,
        _ => default,
    }
}

/// Reads a switch.
fn read_switch<N: Number>(lines: &Vec<Line<N>>, key: &str, default: bool) -> (r: bool)
    ensures
        r == switch_or(last_value(said(lines@), key@, lines@.len() as int), default),
{
    match find_last(lines, key) {
        Some(Value::Bool(b)) => *b,
        _ => default,
    }
}

/// The settings that the lines of a file make, where `home` is the home
/// directory. What is not given, or makes no sense, stays as it is by default.
pub open spec fn settled<N: Number>(
    lines: Seq<LineMeaning<N>>,
    home: Option<Seq<char>>,
) -> Settings<N> {
    let n = lines.len() as int;
    let base = default_settings::<N>();
    Settings {
        sheep: match last_value(lines, "sheep"@, n) {
            Some(Meaning::Int(n)) if n >= 1 => n as usize,
            _ => base.sheep,
        },
        scale: match last_value(lines, "scale"@, n) {
            Some(Meaning::Float(f)) if scale_ok(f) => f,
            Some(Meaning::Int(n)) if scale_ok(N::whole(n)) => N::whole(n),
            _ => base.scale,
        },
        speed: match last_value(lines, "speed"@, n) {
            Some(Meaning::Float(f)) if speed_ok(f) => f,
            Some(Meaning::Int(n)) if speed_ok(N::whole(n)) => N::whole(n),
            _ => base.speed,
        },
        smooth: match last_value(lines, "smooth"@, n) {
            Some(Meaning::Int(n)) if smooth_ok(n) => n as u32,
            _ => base.smooth,
        },
        monitors: match last_value(lines, "monitors"@, n) {
            Some(Meaning::Str(s)) => if s == "all"@ {
                None
            } else {
                Some(seq![s])
            },
            Some(Meaning::List(l)) => Some(l),
            _ => base.monitors,
        },
        draggable: switch_or(last_value(lines, "draggable"@, n), base.draggable),
        throw: switch_or(last_value(lines, "throw"@, n), base.throw),
        climb_windows: switch_or(last_value(lines, "climb_windows"@, n), base.climb_windows),
        hide_fullscreen: switch_or(last_value(lines, "hide_fullscreen"@, n), base.hide_fullscreen),
        pet: match last_value(lines, "pet"@, n) {
            Some(Meaning::Str(s)) => Some(expanded(s, home)),
            _ => base.pet,
        },
        trace: switch_or(last_value(lines, "trace"@, n), base.trace),
    }
}

/// Strings of these texts.
fn strings_of(list: &Vec<Vec<char>>) -> (r: Vec<String>)
    ensures
        strings(r@) == texts(list@),
{
    let mut out: Vec<String> = Vec::new();
    let mut i: usize = 0;
    while i < list.len()
        invariant
            i <= list@.len(),
            strings(out@) == texts(list@).take(i as int),
        decreases list@.len() - i,
    {
        let ghost before = out@;
        let s = string_of(list[i].as_slice());
        out.push(s);
        i = i + 1;
        assert(strings(out@) == strings(before).push(s@));
        assert(texts(list@).take(i as int) == texts(list@).take(i - 1).push(texts(list@)[i - 1]));
    }
    assert(texts(list@).take(i as int) == texts(list@));
    out
}

/// The single name in a list.
fn one_name(name: &[char]) -> (r: Vec<String>)
    ensures
        strings(r@) == seq![name@],
{
    let mut list: Vec<String> = Vec::new();
    list.push(string_of(name));
    assert(strings(list@) == seq![name@]);
    list
}

impl<N: Number> Config<N> {
    /// Reads the settings file, where `home` is the home directory.
    pub fn parse(text: &str, home: Option<&str>) -> (r: Config<N>)
        ensures
            r@ == settled(lines_said::<N>(text@), text_of(home)),
    {
        let lines = parse_lines::<N>(text);
        let mut cfg: Config<N> = Config::default();
        match find_last(&lines, "sheep") {
            Some(Value::Int(n)) => if *n >= 1 {
                cfg.sheep = *n as usize;
            },
            _ => {},
        }
        match find_last(&lines, "scale") {
            Some(Value::Float(f)) => if scale_ok(*f) {
                cfg.scale = *f;
            },
            Some(Value::Int(n)) => if scale_ok(N::whole(*n)) {
                cfg.scale = N::whole(*n);
            },
            _ => {},
        }
        match find_last(&lines, "speed") {
            Some(Value::Float(f)) => if speed_ok(*f) {
                cfg.speed = *f;
            },
            Some(Value::Int(n)) => if speed_ok(N::whole(*n)) {
                cfg.speed = N::whole(*n);
            },
            _ => {},
        }
        match find_last(&lines, "smooth") {
            Some(Value::Int(n)) => if smooth_ok(*n) {
                cfg.smooth = *n as u32;
            },
            _ => {},
        }
        match find_last(&lines, "monitors") {
            Some(Value::Str(s)) => {
                cfg.monitors = if is_word(s.as_slice(), "all") {
                    Monitors::All
                } else {
                    Monitors::Only(one_name(s.as_slice()))
                };
            },
            Some(Value::List(l)) => {
                cfg.monitors = Monitors::Only(strings_of(l));
            },
            _ => {},
        }
        cfg.draggable = read_switch(&lines, "draggable", cfg.draggable);
        cfg.throw = read_switch(&lines, "throw", cfg.throw);
        cfg.climb_windows = read_switch(&lines, "climb_windows", cfg.climb_windows);
        cfg.hide_fullscreen = read_switch(&lines, "hide_fullscreen", cfg.hide_fullscreen);
        match find_last(&lines, "pet") {
            Some(Value::Str(s)) => {
                cfg.pet = Some(expand_tilde(string_of(s.as_slice()).as_str(), home));
            },
            _ => {},
        }
        cfg.trace = read_switch(&lines, "trace", cfg.trace);
        cfg
    }
}

// -- what is wrong with a file --

/// Something in the file that was passed over. Lines are counted from one.
#[derive(Clone, Debug, PartialEq)]
pub enum Complaint {
    /// A line that is not `key = value`.
    NoEquals(usize),
    /// A line whose value cannot be read, and the key it is for.
    Unreadable(usize, String),
    /// A key that nobody knows, or whose value makes no sense.
    Ignored(String),
}

/// What a complaint is about.
pub enum Remark {
    NoEquals(int),
    Unreadable(int, Seq<char>),
    Ignored(Seq<char>),
}

impl View for Complaint {
    type V = Remark;

    open spec fn view(&self) -> Remark {
        match self {
            Complaint::NoEquals(n) => Remark::NoEquals(*n as int),
            Complaint::Unreadable(n, key) => Remark::Unreadable(*n as int, key@),
            Complaint::Ignored(key) => Remark::Ignored(key@),
        }
    }
}

/// What the complaints are about.
pub open spec fn remarks(v: Seq<Complaint>) -> Seq<Remark> {
    v.map_values(|c: Complaint| c@)
}

/// Does the value make sense for the key?
pub open spec fn sensible<N: Number>(key: Seq<char>, v: Meaning<N>) -> bool {
    match v {
        Meaning::Int(n) => {
            ||| key == "sheep"@ && n >= 1
            ||| key == "scale"@ && scale_ok(N::whole(n))
            ||| key == "speed"@ && speed_ok(N::whole(n))
            ||| key == "smooth"@ && smooth_ok(n)
        },
        Meaning::Float(f) => {
            ||| key == "scale"@ && scale_ok(f)
            ||| key == "speed"@ && speed_ok(f)
        },
        Meaning::Bool(_) => {
            ||| key == "draggable"@
            ||| key == "throw"@
            ||| key == "climb_windows"@
            ||| key == "hide_fullscreen"@
            ||| key == "trace"@
        },
        Meaning::Str(_) => {
            ||| key == "monitors"@
            ||| key == "pet"@
        },
        Meaning::List(_) => key == "monitors"@,
    }
}

/// Does the value make sense for the key?
fn makes_sense<N: Number>(key: &[char], v: &Value<N>) -> (r: bool)
    ensures
        r == sensible(key@, v@),
{
    match v {
        Value::Int(n) => (is_word(key, "sheep") && *n >= 1) || (is_word(key, "scale") && scale_ok(
            N::whole(*n),
        )) || (is_word(key, "speed") && speed_ok(N::whole(*n))) || (is_word(key, "smooth")
            && smooth_ok(*n)),
        Value::Float(f) => (is_word(key, "scale") && scale_ok(*f)) || (is_word(key, "speed")
            && speed_ok(*f)),
        Value::Bool(_) => is_word(key, "draggable") || is_word(key, "throw") || is_word(
            key,
            "climb_windows",
        ) || is_word(key, "hide_fullscreen") || is_word(key, "trace"),
        Value::Str(_) => is_word(key, "monitors") || is_word(key, "pet"),
        Value::List(_) => is_word(key, "monitors"),
    }
}

/// Is the key given again from place `i` on?
pub open spec fn given_from<N>(lines: Seq<LineMeaning<N>>, key: Seq<char>, i: int) -> bool
    decreases lines.len() - i,
{
    if 0 <= i < lines.len() {
        match lines[i] {
            LineMeaning::Entry(k, _) if k == key => true,
            _ => given_from(lines, key, i + 1),
        }
    } else {
        false
    }
}

/// Is the key given again?
fn given_again<N: Number>(lines: &Vec<Line<N>>, key: &[char], from: usize) -> (r: bool)
    requires
        from <= lines@.len(),
    ensures
        r == given_from(said(lines@), key@, from as int),
{
    let ghost all = said(lines@);
    let mut i: usize = from;
    while i < lines.len()
        invariant
            i <= lines@.len(),
            all == said(lines@),
            given_from(all, key@, from as int) == given_from(all, key@, i as int),
        decreases lines@.len() - i,
    {
        assert(all[i as int] == lines@[i as int]@);
        match &lines[i] {
            Line::Entry(k, _) => {
                if same_text(k.as_slice(), key) {
                    return true;
                }
            },
            _ => {},
        }
        i = i + 1;
    }
    false
}

/// What is wrong with the line in place `i`: it cannot be read, or its value
/// is the last for its key and makes no sense.
pub open spec fn remark_on<N: Number>(lines: Seq<LineMeaning<N>>, i: int) -> Option<Remark> {
    match lines[i] {
        LineMeaning::Blank => None,
        LineMeaning::NoEquals => Some(Remark::NoEquals(i + 1)),
        LineMeaning::Unreadable(key) => Some(Remark::Unreadable(i + 1, key)),
        LineMeaning::Entry(key, v) => if sensible(key, v) || given_from(lines, key, i + 1) {
            None
        } else {
            Some(Remark::Ignored(key))
        },
    }
}

/// What is wrong with the lines from place `i` on.
pub open spec fn remarks_from<N: Number>(lines: Seq<LineMeaning<N>>, i: int) -> Seq<Remark>
    decreases lines.len() - i,
{
    if 0 <= i < lines.len() {
        match remark_on(lines, i) {
            Some(r) => seq![r] + remarks_from(lines, i + 1),
            None => remarks_from(lines, i + 1),
        }
    } else {
        seq![]
    }
}

/// What is wrong with a line.
fn complain<N: Number>(lines: &Vec<Line<N>>, i: usize) -> (r: Option<Complaint>)
    requires
        i < lines@.len(),
    ensures
        match r {
            Some(c) => remark_on(said(lines@), i as int) == Some(c@),
            None => remark_on(said(lines@), i as int) is None,
        },
{
    assert(said(lines@)[i as int] == lines@[i as int]@);
    assert(i < lines.len());
    match &lines[i] {
        Line::Blank => None,
        Line::NoEquals => Some(Complaint::NoEquals(i + 1)),
        Line::Unreadable(key) => Some(Complaint::Unreadable(i + 1, string_of(key.as_slice()))),
        Line::Entry(key, v) => if makes_sense(key.as_slice(), v) || given_again(
            lines,
            key.as_slice(),
            i + 1,
        ) {
            None
        } else {
            Some(Complaint::Ignored(string_of(key.as_slice())))
        },
    }
}

/// What is wrong with a settings file, so that it can be reported.
pub fn complaints<N: Number>(text: &str) -> (r: Vec<Complaint>)
    ensures
        remarks(r@) == remarks_from(lines_said::<N>(text@), 0),
{
    let lines = parse_lines::<N>(text);
    let ghost all = said(lines@);
    let mut out: Vec<Complaint> = Vec::new();
    let mut i: usize = 0;
    assert(remarks(out@) == Seq::<Remark>::empty());
    while i < lines.len()
        invariant
            i <= lines@.len(),
            all == said(lines@),
            remarks_from(all, 0) == remarks(out@) + remarks_from(all, i as int),
        decreases lines@.len() - i,
    {
        if let Some(c) = complain(&lines, i) {
            let ghost before = remarks(out@);
            let ghost remark = c@;
            out.push(c);
            assert(remarks(out@) == before.push(remark));
            assert(before + (seq![remark] + remarks_from(all, i + 1)) == remarks(out@)
                + remarks_from(all, i + 1));
        }
        i = i + 1;
    }
    assert(remarks(out@) + remarks_from(all, i as int) == remarks(out@));
    out
}

// -- the command line --

/// What can be wrong with an option.
#[derive(Clone, Copy, Debug, PartialEq, Eq, Structural)]
pub enum Fault {
    /// It needs a value and has none.
    NeedsValue,
    /// It wants a number of 1 or more.
    BadSheep,
    /// It wants a multiplier between a tenth and [`SCALE_MAX`].
    BadScale,
    /// It wants a multiplier between a tenth and [`SPEED_MAX`].
    BadSpeed,
    /// It wants a frame rate of 0 to [`SMOOTH_MAX`].
    BadSmooth,
    /// It wants "all" or a list of names.
    BadMonitors,
    /// It wants true or false.
    BadFlag,
    /// Nobody knows it.
    Unknown,
}

/// An option that was rejected: which, the value it was given, and why.
#[derive(Clone, Debug, PartialEq)]
pub struct ArgError {
    pub fault: Fault,
    pub key: String,
    pub value: String,
}

/// What an option was rejected for.
pub struct Rejection {
    pub fault: Fault,
    pub key: Seq<char>,
    pub value: Seq<char>,
}

impl View for ArgError {
    type V = Rejection;

    open spec fn view(&self) -> Rejection {
        Rejection { fault: self.fault, key: self.key@, value: self.value@ }
    }
}

/// A boolean flag: bare means on, or an explicit `=true`/`=false`.
pub open spec fn flag_of(inline: Option<Seq<char>>) -> Option<bool> {
    match inline {
        None => Some(true),
        Some(v) => if v == "true"@ {
            Some(true)
        } else if v == "false"@ {
            Some(false)
        } else {
            None
        },
    }
}

/// A boolean flag: bare means on, or an explicit `=true`/`=false`.
pub fn flag(inline: Option<&[char]>) -> (r: Option<bool>)
    ensures
        r == flag_of(
            match inline {
                Some(v) => Some(v@),
                None => None,
            },
        ),
{
    match inline {
        None => Some(true),
        Some(v) => if is_word(v, "true") {
            Some(true)
        } else if is_word(v, "false") {
            Some(false)
        } else {
            None
        },
    }
}

/// Does the option take a value?
pub open spec fn takes_value(key: Seq<char>) -> bool {
    ||| key == "--sheep"@
    ||| key == "--scale"@
    ||| key == "--speed"@
    ||| key == "--smooth"@
    ||| key == "--monitors"@
    ||| key == "--pet"@
}

/// The settings with an option's value put in.
pub open spec fn with_value<N: Number>(
    c: Settings<N>,
    key: Seq<char>,
    v: Seq<char>,
    home: Option<Seq<char>>,
) -> Result<Settings<N>, Fault> {
    if key == "--sheep"@ {
        match whole_number(v, usize::MAX as nat) {
            Some(n) if n >= 1 => Ok(Settings { sheep: n as usize, ..c }),
            _ => Err(Fault::BadSheep),
        }
    } else if key == "--scale"@ {
        match N::spec_read(v) {
            Some(f) if scale_ok(f) => Ok(Settings { scale: f, ..c }),
            _ => Err(Fault::BadScale),
        }
    } else if key == "--speed"@ {
        match N::spec_read(v) {
            Some(f) if speed_ok(f) => Ok(Settings { speed: f, ..c }),
            _ => Err(Fault::BadSpeed),
        }
    } else if key == "--smooth"@ {
        match signed_number(v) {
            Some(n) if smooth_ok(n) => Ok(Settings { smooth: n as u32, ..c }),
            _ => Err(Fault::BadSmooth),
        }
    } else if key == "--monitors"@ {
        if v == "all"@ {
            Ok(Settings { monitors: None, ..c })
        } else if names_in(v).len() == 0 {
            Err(Fault::BadMonitors)
        } else {
            Ok(Settings { monitors: Some(names_in(v)), ..c })
        }
    } else {
        Ok(Settings { pet: Some(expanded(v, home)), ..c })
    }
}

/// The settings with a switch thrown.
pub open spec fn switched<N>(c: Settings<N>, key: Seq<char>, inline: Option<Seq<char>>) -> Result<
    Settings<N>,
    Fault,
> {
    if key == "--no-draggable"@ {
        Ok(Settings { draggable: false, ..c })
    } else if key == "--no-throw"@ {
        Ok(Settings { throw: false, ..c })
    } else if key == "--no-climb-windows"@ {
        Ok(Settings { climb_windows: false, ..c })
    } else if key == "--no-hide-fullscreen"@ {
        Ok(Settings { hide_fullscreen: false, ..c })
    } else if key == "--no-trace"@ {
        Ok(Settings { trace: false, ..c })
    } else if key == "--draggable"@ || key == "--throw"@ || key == "--climb-windows"@ || key
        == "--hide-fullscreen"@ || key == "--trace"@ {
        match flag_of(inline) {
            None => Err(Fault::BadFlag),
            Some(b) => if key == "--draggable"@ {
                Ok(Settings { draggable: b, ..c })
            } else if key == "--throw"@ {
                Ok(Settings { throw: b, ..c })
            } else if key == "--climb-windows"@ {
                Ok(Settings { climb_windows: b, ..c })
            } else if key == "--hide-fullscreen"@ {
                Ok(Settings { hide_fullscreen: b, ..c })
            } else {
                Ok(Settings { trace: b, ..c })
            },
        }
    } else {
        Err(Fault::Unknown)
    }
}

/// The option an argument names.
pub open spec fn key_of(arg: Seq<char>) -> Seq<char> {
    arg.take(place_of(arg, '=', 0))
}

/// The value written into an argument, behind the equals sign.
pub open spec fn inline_of(arg: Seq<char>) -> Option<Seq<char>> {
    let k = place_of(arg, '=', 0);
    if k == arg.len() {
        None
    } else {
        Some(arg.skip(k + 1))
    }
}

/// What the arguments from place `i` on make of the settings, and why one of
/// them was rejected, if one was. Both `--key value` and `--key=value` are
/// accepted.
pub open spec fn applied_from<N: Number>(
    c: Settings<N>,
    args: Seq<Seq<char>>,
    i: int,
    home: Option<Seq<char>>,
) -> (Settings<N>, Option<Rejection>)
    decreases args.len() - i,
{
    if 0 <= i < args.len() {
        let key = key_of(args[i]);
        let inline = inline_of(args[i]);
        if takes_value(key) {
            match inline {
                Some(v) => match with_value(c, key, v, home) {
                    Ok(next) => applied_from(next, args, i + 1, home),
                    Err(fault) => (c, Some(Rejection { fault, key, value: v })),
                },
                None => if i + 1 < args.len() {
                    match with_value(c, key, args[i + 1], home) {
                        Ok(next) => applied_from(next, args, i + 2, home),
                        Err(fault) => (c, Some(Rejection { fault, key, value: args[i + 1] })),
                    }
                } else {
                    (c, Some(Rejection { fault: Fault::NeedsValue, key, value: seq![] }))
                },
            }
        } else {
            match switched(c, key, inline) {
                Ok(next) => applied_from(next, args, i + 1, home),
                Err(fault) => (
                    c,
                    Some(
                        Rejection {
                            fault,
                            key,
                            value: match inline {
                                Some(v) => v,
                                None => seq![],
                            },
                        },
                    ),
                ),
            }
        }
    } else {
        (c, None)
    }
}

/// Does the option take a value?
fn wants_value(key: &[char]) -> (r: bool)
    ensures
        r == takes_value(key@),
{
    is_word(key, "--sheep") || is_word(key, "--scale") || is_word(key, "--speed") || is_word(
        key,
        "--smooth",
    ) || is_word(key, "--monitors") || is_word(key, "--pet")
}

/// A rejection.
fn reject(fault: Fault, key: &[char], value: &[char]) -> (r: ArgError)
    ensures
        r@ == (Rejection { fault, key: key@, value: value@ }),
{
    ArgError { fault, key: string_of(key), value: string_of(value) }
}

impl<N: Number> Config<N> {
    /// Puts an option's value in.
    fn put(&mut self, key: &[char], v: &[char], home: Option<&str>) -> (r: Option<Fault>)
        requires
            takes_value(key@),
        ensures
            match r {
                None => with_value(old(self)@, key@, v@, text_of(home)) == Ok::<
                    Settings<N>,
                    Fault,
                >(final(self)@),
                Some(f) => with_value(old(self)@, key@, v@, text_of(home)) == Err::<
                    Settings<N>,
                    Fault,
                >(f) && final(self)@ == old(self)@,
            },
    {
        if is_word(key, "--sheep") {
            match read_whole(v, usize::MAX as u64) {
                Some(n) => if n >= 1 {
                    self.sheep = n as usize;
                    return None;
                },
                None => {},
            }
            Some(Fault::BadSheep)
        } else if is_word(key, "--scale") {
            match N::read(string_of(v).as_str()) {
                Some(f) => if scale_ok(f) {
                    self.scale = f;
                    return None;
                },
                None => {},
            }
            Some(Fault::BadScale)
        } else if is_word(key, "--speed") {
            match N::read(string_of(v).as_str()) {
                Some(f) => if speed_ok(f) {
                    self.speed = f;
                    return None;
                },
                None => {},
            }
            Some(Fault::BadSpeed)
        } else if is_word(key, "--smooth") {
            match read_signed(v) {
                Some(n) => if smooth_ok(n) {
                    self.smooth = n as u32;
                    return None;
                },
                None => {},
            }
            Some(Fault::BadSmooth)
        } else if is_word(key, "--monitors") {
            if is_word(v, "all") {
                self.monitors = Monitors::All;
                return None;
            }
            let list = names(v);
            assert(texts(list@).len() == list@.len());
            if list.len() == 0 {
                return Some(Fault::BadMonitors);
            }
            self.monitors = Monitors::Only(strings_of(&list));
            None
        } else {
            self.pet = Some(expand_tilde(string_of(v).as_str(), home));
            None
        }
    }

    /// Throws a switch.
    fn throw_switch(&mut self, key: &[char], inline: Option<&[char]>) -> (r: Option<Fault>)
        ensures
            ({
                let v = match inline {
                    Some(v) => Some(v@),
                    None => None,
                };
                match r {
                    None => switched(old(self)@, key@, v) == Ok::<Settings<N>, Fault>(
                        final(self)@,
                    ),
                    Some(f) => switched(old(self)@, key@, v) == Err::<Settings<N>, Fault>(f)
                        && final(self)@ == old(self)@,
                }
            }),
    {
        if is_word(key, "--no-draggable") {
            self.draggable = false;
            None
        } else if is_word(key, "--no-throw") {
            self.throw = false;
            None
        } else if is_word(key, "--no-climb-windows") {
            self.climb_windows = false;
            None
        } else if is_word(key, "--no-hide-fullscreen") {
            self.hide_fullscreen = false;
            None
        } else if is_word(key, "--no-trace") {
            self.trace = false;
            None
        } else if is_word(key, "--draggable") || is_word(key, "--throw") || is_word(
            key,
            "--climb-windows",
        ) || is_word(key, "--hide-fullscreen") || is_word(key, "--trace") {
            let Some(b) = flag(inline) else {
                return Some(Fault::BadFlag);
            };
            if is_word(key, "--draggable") {
                self.draggable = b;
            } else if is_word(key, "--throw") {
                self.throw = b;
            } else if is_word(key, "--climb-windows") {
                self.climb_windows = b;
            } else if is_word(key, "--hide-fullscreen") {
                self.hide_fullscreen = b;
            } else {
                self.trace = b;
            }
            None
        } else {
            Some(Fault::Unknown)
        }
    }

    /// Every setting can also be given on the command line, where it overrides
    /// whatever the file said. A bad option is rejected; what came before it
    /// has been put in.
    pub fn apply_args(&mut self, args: &[String], home: Option<&str>) -> (r: Result<(), ArgError>)
        ensures
            ({
                let (settings, rejection) = applied_from(
                    old(self)@,
                    strings(args@),
                    0,
                    text_of(home),
                );
                &&& final(self)@ == settings
                &&& match r {
                    Ok(_) => rejection is None,
                    Err(e) => rejection == Some(e@),
                }
            }),
    {
        let ghost all = strings(args@);
        let ghost start = self@;
        let mut i: usize = 0;
        #[verifier::loop_isolation(false)]
        while i < args.len()
            invariant
                i <= args@.len(),
                applied_from(start, all, 0, text_of(home)) == applied_from(
                    self@,
                    all,
                    i as int,
                    text_of(home),
                ),
            decreases args@.len() - i,
        {
            let arg = chars_of(args[i].as_str());
            assert(arg@ == all[i as int]);
            let s = arg.as_slice();
            let k = find_char(s, '=', 0);
            let key = slice_subrange(s, 0, k);
            assert(key@ == key_of(arg@));
            let mut inline: Option<&[char]> = None;
            if k < s.len() {
                let v = slice_subrange(s, k + 1, s.len());
                assert(v@ == arg@.skip(k + 1));
                inline = Some(v);
            }
            if wants_value(key) {
                match inline {
                    Some(v) => {
                        if let Some(fault) = self.put(key, v, home) {
                            return Err(reject(fault, key, v));
                        }
                        i = i + 1;
                    },
                    None => {
                        if i + 1 == args.len() {
                            let none: Vec<char> = Vec::new();
                            return Err(reject(Fault::NeedsValue, key, none.as_slice()));
                        }
                        let v = chars_of(args[i + 1].as_str());
                        assert(v@ == all[i + 1]);
                        if let Some(fault) = self.put(key, v.as_slice(), home) {
                            return Err(reject(fault, key, v.as_slice()));
                        }
                        i = i + 2;
                    },
                }
            } else {
                if let Some(fault) = self.throw_switch(key, inline) {
                    let none: Vec<char> = Vec::new();
                    let given = match inline {
                        Some(v) => v,
                        None => none.as_slice(),
                    };
                    return Err(reject(fault, key, given));
                }
                i = i + 1;
            }
        }
        Ok(())
    }
}

// -- what holds of all settings --

proof fn lemma_nothing_given<N>(lines: Seq<LineMeaning<N>>, key: Seq<char>, n: int)
    requires
        n <= lines.len(),
        forall|i: int| 0 <= i < n ==> !(#[trigger] lines[i] is Entry),
    ensures
        last_value(lines, key, n) is None,
    decreases n,
{
    if n > 0 {
        lemma_nothing_given(lines, key, n - 1);
    }
}

/// A file that sets nothing - empty, or blank but for comments and nonsense -
/// leaves everything as it is by default.
pub proof fn a_file_that_sets_nothing_is_the_default<N: Number>(
    lines: Seq<LineMeaning<N>>,
    home: Option<Seq<char>>,
)
    requires
        forall|i: int| 0 <= i < lines.len() ==> !(#[trigger] lines[i] is Entry),
    ensures
        settled(lines, home) == default_settings::<N>(),
{
    let n = lines.len() as int;
    assert forall|key: Seq<char>| #[trigger] last_value(lines, key, n) is None by {
        lemma_nothing_given(lines, key, n);
    }
}

/// The last value given for a key is the one that counts, whatever comes
/// before it or after it for other keys.
pub proof fn the_last_value_counts<N>(
    before: Seq<LineMeaning<N>>,
    key: Seq<char>,
    v: Meaning<N>,
    after: Seq<LineMeaning<N>>,
)
    requires
        forall|i: int|
            0 <= i < after.len() ==> match #[trigger] after[i] {
                LineMeaning::Entry(k, _) => k != key,
                _ => true,
            },
    ensures
        ({
            let lines = before.push(LineMeaning::Entry(key, v)) + after;
            last_value(lines, key, lines.len() as int) == Some(v)
        }),
    decreases after.len(),
{
    let lines = before.push(LineMeaning::Entry(key, v)) + after;
    if after.len() == 0 {
        assert(lines[lines.len() - 1] == LineMeaning::Entry(key, v));
    } else {
        let shorter = after.drop_last();
        the_last_value_counts(before, key, v, shorter);
        let less = before.push(LineMeaning::Entry(key, v)) + shorter;
        assert(lines[lines.len() - 1] == after.last());
        lemma_last_value_of_prefix(lines, less, key, less.len() as int);
    }
}

proof fn lemma_last_value_of_prefix<N>(
    a: Seq<LineMeaning<N>>,
    b: Seq<LineMeaning<N>>,
    key: Seq<char>,
    n: int,
)
    requires
        n <= a.len(),
        n <= b.len(),
        forall|i: int| 0 <= i < n ==> a[i] == b[i],
    ensures
        last_value(a, key, n) == last_value(b, key, n),
    decreases n,
{
    if n > 0 {
        lemma_last_value_of_prefix(a, b, key, n - 1);
    }
}

/// Are the settings within what makes sense?
pub open spec fn in_range<N: Number>(c: Settings<N>) -> bool {
    c.sheep >= 1 && scale_ok(c.scale) && speed_ok(c.speed) && c.smooth <= SMOOTH_MAX
}

/// No file can take the settings out of range, as long as the defaults are in
/// it and the machine can count as many sheep as the file can.
pub proof fn a_file_keeps_settings_in_range<N: Number>(
    lines: Seq<LineMeaning<N>>,
    home: Option<Seq<char>>,
)
    requires
        in_range(default_settings::<N>()),
        usize::MAX >= i64::MAX,
    ensures
        in_range(settled(lines, home)),
{
}

/// No command line can take the settings out of range.
pub proof fn arguments_keep_settings_in_range<N: Number>(
    c: Settings<N>,
    args: Seq<Seq<char>>,
    i: int,
    home: Option<Seq<char>>,
)
    requires
        in_range(c),
    ensures
        in_range(applied_from(c, args, i, home).0),
    decreases args.len() - i,
{
    if 0 <= i < args.len() {
        let key = key_of(args[i]);
        let inline = inline_of(args[i]);
        if takes_value(key) {
            match inline {
                Some(v) => if let Ok(next) = with_value(c, key, v, home) {
                    arguments_keep_settings_in_range(next, args, i + 1, home);
                },
                None => if i + 1 < args.len() {
                    if let Ok(next) = with_value(c, key, args[i + 1], home) {
                        arguments_keep_settings_in_range(next, args, i + 2, home);
                    }
                },
            }
        } else {
            if let Ok(next) = switched(c, key, inline) {
                arguments_keep_settings_in_range(next, args, i + 1, home);
            }
        }
    }
}

/// Whatever a file says and whatever options are given after it, rejected or
/// not, the settings stay in range, as long as the defaults are in it and the
/// machine can count as many sheep as the file can.
pub proof fn settings_stay_in_range<N: Number>(
    lines: Seq<LineMeaning<N>>,
    args: Seq<Seq<char>>,
    home: Option<Seq<char>>,
)
    requires
        in_range(default_settings::<N>()),
        usize::MAX >= i64::MAX,
    ensures
        in_range(settled(lines, home)),
        in_range(applied_from(settled(lines, home), args, 0, home).0),
{
    a_file_keeps_settings_in_range(lines, home);
    arguments_keep_settings_in_range(settled(lines, home), args, 0, home);
}

/// In the decimal numbers the ranges are what they say: there is a sheep at
/// least, its scale is from a tenth to twenty, its speed from a tenth to ten
/// and its frame rate at most 240.
pub proof fn decimal_settings_stay_in_range(
    lines: Seq<LineMeaning<Fixed>>,
    args: Seq<Seq<char>>,
    home: Option<Seq<char>>,
)
    requires
        usize::MAX >= i64::MAX,
    ensures
        ({
            let c = applied_from(settled(lines, home), args, 0, home).0;
            &&& c.sheep >= 1
            &&& UNIT <= 10 * c.scale.raw <= 200 * UNIT
            &&& UNIT <= 10 * c.speed.raw <= 100 * UNIT
            &&& c.smooth <= 240
        }),
{
    assert(one::<Fixed>().raw == UNIT);
    assert(ratio::<Fixed>(1, 10).raw == 1_000_000_000) by {
        let (a, b) = (UNIT * UNIT, 10 * UNIT);
        assert(a / b == 1_000_000_000) by (nonlinear_arith)
            requires
                a == UNIT * UNIT,
                b == 10 * UNIT,
                UNIT == 10_000_000_000,
        ;
        assert(quotient_of(a, b) == a / b);
    }
    assert(in_range(default_settings::<Fixed>()));
    settings_stay_in_range(lines, args, home);
}

/// Arguments apply one after another: where the first of two command lines
/// has nothing wrong with it, giving both is giving the second after the
/// first. So what comes later wins.
pub proof fn later_arguments_win<N: Number>(
    c: Settings<N>,
    first: Seq<Seq<char>>,
    second: Seq<Seq<char>>,
    i: int,
    home: Option<Seq<char>>,
)
    requires
        0 <= i <= first.len(),
        applied_from(c, first, i, home).1 is None,
    ensures
        applied_from(c, first + second, i, home) == applied_from(
            applied_from(c, first, i, home).0,
            second,
            0,
            home,
        ),
    decreases first.len() - i,
{
    let both = first + second;
    if i < first.len() {
        assert(both[i] == first[i]);
        let key = key_of(first[i]);
        let inline = inline_of(first[i]);
        if takes_value(key) {
            match inline {
                Some(v) => if let Ok(next) = with_value(c, key, v, home) {
                    later_arguments_win(next, first, second, i + 1, home);
                },
                None => {
                    assert(both[i + 1] == first[i + 1]);
                    if let Ok(next) = with_value(c, key, first[i + 1], home) {
                        later_arguments_win(next, first, second, i + 2, home);
                    }
                },
            }
        } else {
            if let Ok(next) = switched(c, key, inline) {
                later_arguments_win(next, first, second, i + 1, home);
            }
        }
    } else {
        lemma_applied_to_rest(c, first, second, 0, home);
    }
}

proof fn lemma_applied_to_rest<N: Number>(
    c: Settings<N>,
    first: Seq<Seq<char>>,
    second: Seq<Seq<char>>,
    i: int,
    home: Option<Seq<char>>,
)
    requires
        0 <= i,
    ensures
        applied_from(c, first + second, first.len() + i, home) == applied_from(
            c,
            second,
            i,
            home,
        ),
    decreases second.len() - i,
{
    let both = first + second;
    let at = first.len() + i;
    if i < second.len() {
        assert(both[at] == second[i]);
        let key = key_of(second[i]);
        let inline = inline_of(second[i]);
        if takes_value(key) {
            match inline {
                Some(v) => if let Ok(next) = with_value(c, key, v, home) {
                    lemma_applied_to_rest(next, first, second, i + 1, home);
                },
                None => if i + 1 < second.len() {
                    assert(both[at + 1] == second[i + 1]);
                    if let Ok(next) = with_value(c, key, second[i + 1], home) {
                        lemma_applied_to_rest(next, first, second, i + 2, home);
                    }
                },
            }
        } else {
            if let Ok(next) = switched(c, key, inline) {
                lemma_applied_to_rest(next, first, second, i + 1, home);
            }
        }
    }
}

/// Is the option, or the switch that turns it off, named by an argument from
/// place `i` on?
pub open spec fn names_option(args: Seq<Seq<char>>, key: Seq<char>, off: Seq<char>, i: int) -> bool {
    exists|j: int|
        i <= j < args.len() && (key_of(#[trigger] args[j]) == key || key_of(args[j]) == off)
}

/// A setting that no argument names keeps the value it had.
pub proof fn settings_not_given_are_kept<N: Number>(
    c: Settings<N>,
    args: Seq<Seq<char>>,
    i: int,
    home: Option<Seq<char>>,
)
    requires
        0 <= i,
    ensures
        ({
            let after = applied_from(c, args, i, home).0;
            &&& !names_option(args, "--sheep"@, "--sheep"@, i) ==> after.sheep == c.sheep
            &&& !names_option(args, "--scale"@, "--scale"@, i) ==> after.scale == c.scale
            &&& !names_option(args, "--speed"@, "--speed"@, i) ==> after.speed == c.speed
            &&& !names_option(args, "--smooth"@, "--smooth"@, i) ==> after.smooth == c.smooth
            &&& !names_option(args, "--monitors"@, "--monitors"@, i) ==> after.monitors
                == c.monitors
            &&& !names_option(args, "--pet"@, "--pet"@, i) ==> after.pet == c.pet
            &&& !names_option(args, "--draggable"@, "--no-draggable"@, i) ==> after.draggable
                == c.draggable
            &&& !names_option(args, "--throw"@, "--no-throw"@, i) ==> after.throw == c.throw
            &&& !names_option(args, "--climb-windows"@, "--no-climb-windows"@, i)
                ==> after.climb_windows == c.climb_windows
            &&& !names_option(args, "--hide-fullscreen"@, "--no-hide-fullscreen"@, i)
                ==> after.hide_fullscreen == c.hide_fullscreen
            &&& !names_option(args, "--trace"@, "--no-trace"@, i) ==> after.trace == c.trace
        }),
    decreases args.len() - i,
{
    if i < args.len() {
        let key = key_of(args[i]);
        let inline = inline_of(args[i]);
        assert forall|k: Seq<char>, off: Seq<char>|
            !#[trigger] names_option(args, k, off, i) implies key != k && key != off
            && !names_option(args, k, off, i + 1) && !names_option(args, k, off, i + 2) by {
            assert(key_of(args[i]) == key);
        }
        if takes_value(key) {
            match inline {
                Some(v) => if let Ok(next) = with_value(c, key, v, home) {
                    settings_not_given_are_kept(next, args, i + 1, home);
                },
                None => if i + 1 < args.len() {
                    if let Ok(next) = with_value(c, key, args[i + 1], home) {
                        settings_not_given_are_kept(next, args, i + 2, home);
                    }
                },
            }
        } else {
            if let Ok(next) = switched(c, key, inline) {
                settings_not_given_are_kept(next, args, i + 1, home);
            }
        }
    }
}

} // verus!

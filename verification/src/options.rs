//! What a settings file and a command line do to the settings.

use vstd::prelude::*;

use crate::config::{
    applied_from, comment_from, expanded, inline_of, key_of, last_value, line_of, names_in, settled,
    switched, takes_value, value_of, Fault, LineMeaning, Meaning, Rejection, Settings,
};
use crate::number::{one, ratio, Number};
use crate::text::{
    is_digits, is_space, place_of, signed_number, trimmed, trimmed_back, trimmed_front,
    whole_number, worth_of,
};

verus! {

// -- the file --

proof fn lemma_last_value<N>(
    lines: Seq<LineMeaning<N>>,
    more: LineMeaning<N>,
    key: Seq<char>,
    n: int,
)
    requires
        n <= lines.len(),
    ensures
        last_value(lines.push(more), key, n) == last_value(lines, key, n),
    decreases n,
{
    if n > 0 {
        assert(lines.push(more)[n - 1] == lines[n - 1]);
        lemma_last_value(lines, more, key, n - 1);
    }
}

proof fn lemma_line_added<N>(
    lines: Seq<LineMeaning<N>>,
    key: Seq<char>,
    v: Meaning<N>,
    wanted: Seq<char>,
)
    ensures
        ({
            let longer = lines.push(LineMeaning::Entry(key, v));
            last_value(longer, wanted, longer.len() as int) == if key == wanted {
                Some(v)
            } else {
                last_value(lines, wanted, lines.len() as int)
            }
        }),
{
    let longer = lines.push(LineMeaning::Entry(key, v));
    assert(longer[longer.len() - 1] == LineMeaning::Entry(key, v));
    lemma_last_value(lines, LineMeaning::Entry(key, v), wanted, lines.len() as int);
}

/// Is this a size for a sheep: from a tenth to twenty?
pub open spec fn is_a_size<N: Number>(f: N) -> bool {
    f.finite() && ratio::<N>(1, 10).at_most(f) && f.at_most(N::whole(20))
}

/// Is this a pace for a sheep: from a tenth to ten?
pub open spec fn is_a_pace<N: Number>(f: N) -> bool {
    f.finite() && ratio::<N>(1, 10).at_most(f) && f.at_most(N::whole(10))
}

/// One more line in a file changes the setting that it names and no other.
/// The setting is then what the line says, or what it is by default where
/// that makes no sense, whatever earlier lines said of it.
pub proof fn a_line_sets_its_own_setting_alone<N: Number>(
    lines: Seq<LineMeaning<N>>,
    key: Seq<char>,
    v: Meaning<N>,
    home: Option<Seq<char>>,
)
    ensures
        ({
            let a = settled(lines, home);
            let b = settled(lines.push(LineMeaning::Entry(key, v)), home);
            &&& key != "sheep"@ ==> b.sheep == a.sheep
            &&& key != "scale"@ ==> b.scale == a.scale
            &&& key != "speed"@ ==> b.speed == a.speed
            &&& key != "smooth"@ ==> b.smooth == a.smooth
            &&& key != "monitors"@ ==> b.monitors == a.monitors
            &&& key != "draggable"@ ==> b.draggable == a.draggable
            &&& key != "throw"@ ==> b.throw == a.throw
            &&& key != "climb_windows"@ ==> b.climb_windows == a.climb_windows
            &&& key != "hide_fullscreen"@ ==> b.hide_fullscreen == a.hide_fullscreen
            &&& key != "pet"@ ==> b.pet == a.pet
            &&& key != "trace"@ ==> b.trace == a.trace
            &&& key == "sheep"@ ==> match v {
                Meaning::Int(n) => if n >= 1 {
                    b.sheep == n as usize
                } else {
                    b.sheep == 1
                },
                _ => b.sheep == 1,
            }
            &&& key == "scale"@ ==> match v {
                Meaning::Float(f) => if is_a_size(f) {
                    b.scale == f
                } else {
                    b.scale == one::<N>()
                },
                Meaning::Int(n) => if is_a_size(N::whole(n)) {
                    b.scale == N::whole(n)
                } else {
                    b.scale == one::<N>()
                },
                _ => b.scale == one::<N>(),
            }
            &&& key == "speed"@ ==> match v {
                Meaning::Float(f) => if is_a_pace(f) {
                    b.speed == f
                } else {
                    b.speed == one::<N>()
                },
                Meaning::Int(n) => if is_a_pace(N::whole(n)) {
                    b.speed == N::whole(n)
                } else {
                    b.speed == one::<N>()
                },
                _ => b.speed == one::<N>(),
            }
            &&& key == "smooth"@ ==> match v {
                Meaning::Int(n) => if 0 <= n <= 240 {
                    b.smooth == n
                } else {
                    b.smooth == 60
                },
                _ => b.smooth == 60,
            }
            &&& key == "monitors"@ ==> match v {
                Meaning::Str(s) => if s == "all"@ {
                    b.monitors is None
                } else {
                    b.monitors == Some(seq![s])
                },
                Meaning::List(l) => b.monitors == Some(l),
                _ => b.monitors is None,
            }
            &&& key == "draggable"@ ==> b.draggable == (v != Meaning::<N>::Bool(false))
            &&& key == "throw"@ ==> b.throw == (v != Meaning::<N>::Bool(false))
            &&& key == "climb_windows"@ ==> b.climb_windows == (v != Meaning::<N>::Bool(false))
            &&& key == "hide_fullscreen"@ ==> b.hide_fullscreen == (v != Meaning::<N>::Bool(false))
            &&& key == "trace"@ ==> b.trace == (v == Meaning::<N>::Bool(true))
            &&& key == "pet"@ ==> match v {
                Meaning::Str(s) => b.pet == Some(expanded(s, home)),
                _ => b.pet is None,
            }
        }),
{
    lemma_line_added(lines, key, v, "sheep"@);
    lemma_line_added(lines, key, v, "scale"@);
    lemma_line_added(lines, key, v, "speed"@);
    lemma_line_added(lines, key, v, "smooth"@);
    lemma_line_added(lines, key, v, "monitors"@);
    lemma_line_added(lines, key, v, "draggable"@);
    lemma_line_added(lines, key, v, "throw"@);
    lemma_line_added(lines, key, v, "climb_windows"@);
    lemma_line_added(lines, key, v, "hide_fullscreen"@);
    lemma_line_added(lines, key, v, "pet"@);
    lemma_line_added(lines, key, v, "trace"@);
}

/// Someone who sets nothing has one sheep of its natural size and pace, drawn
/// smoothly, on every monitor, that can be dragged and thrown and climbs
/// windows, and is not seen over a fullscreen window.
pub proof fn nothing_set_is_one_plain_sheep<N: Number>(home: Option<Seq<char>>)
    ensures
        ({
            let c = settled(Seq::<LineMeaning<N>>::empty(), home);
            &&& c.sheep == 1
            &&& c.scale == one::<N>()
            &&& c.speed == one::<N>()
            &&& c.smooth == 60
            &&& c.monitors is None
            &&& c.draggable
            &&& c.throw
            &&& c.climb_windows
            &&& c.hide_fullscreen
            &&& c.pet is None
            &&& !c.trace
        }),
{
}

// -- a line --

/// Is it all white space?
pub open spec fn is_blank_space(s: Seq<char>) -> bool {
    forall|k: int| 0 <= k < s.len() ==> is_space(#[trigger] s[k])
}

/// Does the text neither start nor end with white space, and is there any of
/// it?
pub open spec fn is_tight(s: Seq<char>) -> bool {
    s.len() > 0 && !is_space(s[0]) && !is_space(s.last())
}

proof fn lemma_trim_front(pad: Seq<char>, s: Seq<char>)
    requires
        is_blank_space(pad),
        s.len() == 0 || !is_space(s[0]),
    ensures
        trimmed_front(pad + s) == s,
    decreases pad.len(),
{
    if pad.len() == 0 {
        assert(pad + s == s);
    } else {
        assert((pad + s)[0] == pad[0]);
        assert((pad + s).skip(1) == pad.skip(1) + s);
        assert forall|k: int| 0 <= k < pad.skip(1).len() implies is_space(
            #[trigger] pad.skip(1)[k],
        ) by {
            assert(pad.skip(1)[k] == pad[k + 1]);
        }
        lemma_trim_front(pad.skip(1), s);
    }
}

proof fn lemma_trim_back(s: Seq<char>, pad: Seq<char>)
    requires
        is_blank_space(pad),
        s.len() == 0 || !is_space(s.last()),
    ensures
        trimmed_back(s + pad) == s,
    decreases pad.len(),
{
    if pad.len() == 0 {
        assert(s + pad == s);
    } else {
        assert((s + pad).last() == pad.last());
        assert((s + pad).drop_last() == s + pad.drop_last());
        assert forall|k: int| 0 <= k < pad.drop_last().len() implies is_space(
            #[trigger] pad.drop_last()[k],
        ) by {
            assert(pad.drop_last()[k] == pad[k]);
        }
        lemma_trim_back(s, pad.drop_last());
    }
}

/// Trimming takes off the white space around a text and nothing else.
pub proof fn trimming_takes_off_white_space(before: Seq<char>, s: Seq<char>, after: Seq<char>)
    requires
        is_blank_space(before),
        is_blank_space(after),
        is_tight(s),
    ensures
        trimmed(before + s + after) == s,
{
    assert(before + s + after == before + (s + after));
    assert((s + after)[0] == s[0]);
    lemma_trim_front(before, s + after);
    lemma_trim_back(s, after);
}

proof fn lemma_place(s: Seq<char>, c: char, i: int, k: int)
    requires
        0 <= i <= k <= s.len(),
        forall|j: int| i <= j < k ==> #[trigger] s[j] != c,
        k < s.len() ==> s[k] == c,
    ensures
        place_of(s, c, i) == k,
    decreases k - i,
{
    if i < k {
        lemma_place(s, c, i + 1, k);
    }
}

proof fn lemma_comment(s: Seq<char>, i: int, k: int)
    requires
        0 <= i <= k <= s.len(),
        forall|j: int| i <= j < k ==> #[trigger] s[j] != '#' && s[j] != '"',
        k < s.len() ==> s[k] == '#',
    ensures
        comment_from(s, i, false) == k,
    decreases k - i,
{
    if i < k {
        lemma_comment(s, i + 1, k);
    }
}

/// Is the text free of what has a meaning of its own in a line?
pub open spec fn is_plain_text(s: Seq<char>) -> bool {
    forall|k: int| 0 <= k < s.len() ==> #[trigger] s[k] != '#' && s[k] != '"' && s[k] != '='
}

/// A line gives its key the value behind the equals sign, however much white
/// space there is around the two and whatever comment follows. Where the value
/// cannot be read the line says so.
pub proof fn a_line_gives_its_key_the_value<N: Number>(
    pads: (Seq<char>, Seq<char>, Seq<char>, Seq<char>),
    key: Seq<char>,
    value: Seq<char>,
    comment: Seq<char>,
)
    requires
        is_blank_space(pads.0),
        is_blank_space(pads.1),
        is_blank_space(pads.2),
        is_blank_space(pads.3),
        is_tight(key),
        is_tight(value),
        is_plain_text(pads.0 + key + pads.1),
        is_plain_text(pads.2 + value + pads.3),
        comment.len() == 0 || comment[0] == '#',
    ensures
        line_of::<N>(
            (pads.0 + key + pads.1) + seq!['='] + (pads.2 + value + pads.3) + comment,
        ) == match value_of::<N>(value) {
            Some(v) => LineMeaning::Entry(key, v),
            None => LineMeaning::Unreadable(key),
        },
{
    let left = pads.0 + key + pads.1;
    let right = pads.2 + value + pads.3;
    let body = left + seq!['='] + right;
    let raw = body + comment;
    let n = body.len() as int;
    assert forall|j: int| 0 <= j < n implies #[trigger] raw[j] != '#' && raw[j] != '"' by {
        if j < left.len() {
            assert(raw[j] == left[j]);
        } else if j == left.len() {
            assert(raw[j] == '=');
        } else {
            assert(raw[j] == right[j - left.len() - 1]);
        }
    }
    if comment.len() > 0 {
        assert(raw[n] == comment[0]);
    }
    lemma_comment(raw, 0, n);
    assert(raw.take(n) == body);
    let head = key + pads.1;
    let tail = pads.2 + value;
    let line = head + seq!['='] + tail;
    assert(body == pads.0 + line + pads.3);
    assert(line[0] == key[0]);
    assert(line.last() == value.last());
    trimming_takes_off_white_space(pads.0, line, pads.3);
    let k = head.len() as int;
    assert forall|j: int| 0 <= j < k implies #[trigger] line[j] != '=' by {
        assert(line[j] == left[pads.0.len() + j]);
    }
    assert(line[k] == '=');
    lemma_place(line, '=', 0, k);
    assert(line.take(k) == Seq::<char>::empty() + key + pads.1);
    assert(line.skip(k + 1) == pads.2 + value + Seq::<char>::empty());
    trimming_takes_off_white_space(Seq::empty(), key, pads.1);
    trimming_takes_off_white_space(pads.2, value, Seq::empty());
}

/// The words for yes and no are read as such, digits as the number that they
/// spell, and text in quotes as the text.
pub proof fn values_are_read_as_written<N: Number>(digits: Seq<char>, inner: Seq<char>)
    requires
        is_digits(digits),
        worth_of(digits) <= i64::MAX,
    ensures
        value_of::<N>("true"@) == Some(Meaning::<N>::Bool(true)),
        value_of::<N>("false"@) == Some(Meaning::<N>::Bool(false)),
        value_of::<N>(digits) == Some(Meaning::<N>::Int(worth_of(digits) as i64)),
        value_of::<N>(seq!['-'] + digits) == Some(Meaning::<N>::Int((-worth_of(digits)) as i64)),
        !inner.contains('.') && !inner.contains('e') && !inner.contains('E') ==> value_of::<N>(
            seq!['"'] + inner + seq!['"'],
        ) == Some(Meaning::<N>::Str(inner)),
{
    reveal_strlit("true");
    reveal_strlit("false");
    assert("true"@[0] == 't');
    assert("false"@[0] == 'f');
    assert(digits[0] >= '0' && digits[0] <= '9') by {
        assert(crate::text::is_digit(digits[0]));
    }
    let minus = seq!['-'] + digits;
    assert(minus[0] == '-');
    assert(minus.skip(1) == digits);
    let quoted = seq!['"'] + inner + seq!['"'];
    assert(quoted[0] == '"');
    assert(quoted.last() == '"');
    assert(quoted.subrange(1, quoted.len() - 1) == inner);
    assert(!is_digits(quoted)) by {
        assert(!crate::text::is_digit(quoted[0]));
    }
    assert(signed_number(quoted) is None);
    assert(trimmed(quoted) == quoted) by {
        trimming_takes_off_white_space(Seq::empty(), quoted, Seq::empty());
        assert(Seq::<char>::empty() + quoted + Seq::<char>::empty() == quoted);
    }
    if !inner.contains('.') && !inner.contains('e') && !inner.contains('E') {
        assert(!crate::config::written_as_a_fraction(quoted)) by {
            assert forall|c: char| quoted.contains(c) implies c == '"' || inner.contains(c) by {
                let k = choose|k: int| 0 <= k < quoted.len() && quoted[k] == c;
                if 0 < k < quoted.len() - 1 {
                    assert(inner[k - 1] == c);
                }
            }
        }
    }
}

// -- the command line --

/// The options that take a value.
pub enum Valued {
    Sheep,
    Scale,
    Speed,
    Smooth,
    Monitors,
    Pet,
}

/// The settings that are on or off.
pub enum Switch {
    Draggable,
    Throw,
    ClimbWindows,
    HideFullscreen,
    Trace,
}

impl Valued {
    /// How the option is spelled.
    pub open spec fn spelled(self) -> Seq<char> {
        match self {
            Valued::Sheep => "--sheep"@,
            Valued::Scale => "--scale"@,
            Valued::Speed => "--speed"@,
            Valued::Smooth => "--smooth"@,
            Valued::Monitors => "--monitors"@,
            Valued::Pet => "--pet"@,
        }
    }
}

impl Switch {
    /// How the option is spelled that turns it on.
    pub open spec fn on(self) -> Seq<char> {
        match self {
            Switch::Draggable => "--draggable"@,
            Switch::Throw => "--throw"@,
            Switch::ClimbWindows => "--climb-windows"@,
            Switch::HideFullscreen => "--hide-fullscreen"@,
            Switch::Trace => "--trace"@,
        }
    }

    /// How the option is spelled that turns it off.
    pub open spec fn off(self) -> Seq<char> {
        match self {
            Switch::Draggable => "--no-draggable"@,
            Switch::Throw => "--no-throw"@,
            Switch::ClimbWindows => "--no-climb-windows"@,
            Switch::HideFullscreen => "--no-hide-fullscreen"@,
            Switch::Trace => "--no-trace"@,
        }
    }

    /// The settings with it on or off.
    pub open spec fn set<N>(self, c: Settings<N>, b: bool) -> Settings<N> {
        match self {
            Switch::Draggable => Settings { draggable: b, ..c },
            Switch::Throw => Settings { throw: b, ..c },
            Switch::ClimbWindows => Settings { climb_windows: b, ..c },
            Switch::HideFullscreen => Settings { hide_fullscreen: b, ..c },
            Switch::Trace => Settings { trace: b, ..c },
        }
    }
}

/// Is there no equals sign in the text?
spec fn no_equals(s: Seq<char>) -> bool {
    forall|k: int| 0 <= k < s.len() ==> #[trigger] s[k] != '='
}

proof fn lemma_spellings()
    ensures
        forall|o: Valued| no_equals(#[trigger] o.spelled()),
        forall|s: Switch| no_equals(#[trigger] s.on()) && no_equals(s.off()),
        forall|o: Valued, p: Valued| o != p ==> #[trigger] o.spelled() != #[trigger] p.spelled(),
        forall|o: Valued, s: Switch|
            #[trigger] o.spelled() != #[trigger] s.on() && o.spelled() != s.off(),
        forall|s: Switch, t: Switch|
            s != t ==> #[trigger] s.on() != #[trigger] t.on() && s.off() != t.off(),
        forall|s: Switch, t: Switch| #[trigger] s.on() != #[trigger] t.off(),
{
    reveal_strlit("--sheep");
    reveal_strlit("--scale");
    reveal_strlit("--speed");
    reveal_strlit("--smooth");
    reveal_strlit("--monitors");
    reveal_strlit("--pet");
    reveal_strlit("--draggable");
    reveal_strlit("--throw");
    reveal_strlit("--climb-windows");
    reveal_strlit("--hide-fullscreen");
    reveal_strlit("--trace");
    reveal_strlit("--no-draggable");
    reveal_strlit("--no-throw");
    reveal_strlit("--no-climb-windows");
    reveal_strlit("--no-hide-fullscreen");
    reveal_strlit("--no-trace");
    assert forall|o: Valued, p: Valued| o != p implies #[trigger] o.spelled()
        != #[trigger] p.spelled() by {
        let (a, b) = (o.spelled(), p.spelled());
        assert(a.len() != b.len() || a[3] != b[3]);
    }
    assert forall|o: Valued, s: Switch| #[trigger] o.spelled() != #[trigger] s.on() && o.spelled()
        != s.off() by {
        let (a, b, c) = (o.spelled(), s.on(), s.off());
        assert(a.len() != b.len() || a[2] != b[2] || a[3] != b[3]);
        assert(a.len() != c.len() || a[2] != c[2]);
    }
    assert forall|s: Switch, t: Switch| s != t implies #[trigger] s.on() != #[trigger] t.on()
        && s.off() != t.off() by {
        assert(s.on().len() != t.on().len() || s.on()[3] != t.on()[3]);
        assert(s.off().len() != t.off().len() || s.off()[6] != t.off()[6]);
    }
    assert forall|s: Switch, t: Switch| #[trigger] s.on() != #[trigger] t.off() by {
        assert(s.on().len() != t.off().len() || s.on()[2] != t.off()[2]);
    }
}

proof fn lemma_bare(key: Seq<char>)
    requires
        no_equals(key),
    ensures
        key_of(key) == key,
        inline_of(key) is None,
{
    lemma_place(key, '=', 0, key.len() as int);
    assert(key.take(key.len() as int) == key);
}

proof fn lemma_inline(key: Seq<char>, v: Seq<char>)
    requires
        no_equals(key),
    ensures
        key_of(key + seq!['='] + v) == key,
        inline_of(key + seq!['='] + v) == Some(v),
{
    let arg = key + seq!['='] + v;
    let k = key.len() as int;
    assert forall|j: int| 0 <= j < k implies #[trigger] arg[j] != '=' by {
        assert(arg[j] == key[j]);
    }
    assert(arg[k] == '=');
    lemma_place(arg, '=', 0, k);
    assert(arg.take(k) == key);
    assert(arg.skip(k + 1) == v);
}

/// What an option with a value makes of the settings: it puts the value in its
/// own setting and leaves the others alone, or is rejected for its own reason.
pub open spec fn put_in<N: Number>(
    o: Valued,
    c: Settings<N>,
    v: Seq<char>,
    home: Option<Seq<char>>,
) -> Result<Settings<N>, Fault> {
    match o {
        Valued::Sheep => match whole_number(v, usize::MAX as nat) {
            Some(n) => if n >= 1 {
                Ok(Settings { sheep: n as usize, ..c })
            } else {
                Err(Fault::BadSheep)
            },
            None => Err(Fault::BadSheep),
        },
        Valued::Scale => match N::spec_read(v) {
            Some(f) => if is_a_size(f) {
                Ok(Settings { scale: f, ..c })
            } else {
                Err(Fault::BadScale)
            },
            None => Err(Fault::BadScale),
        },
        Valued::Speed => match N::spec_read(v) {
            Some(f) => if is_a_pace(f) {
                Ok(Settings { speed: f, ..c })
            } else {
                Err(Fault::BadSpeed)
            },
            None => Err(Fault::BadSpeed),
        },
        Valued::Smooth => match signed_number(v) {
            Some(n) => if 0 <= n <= 240 {
                Ok(Settings { smooth: n as u32, ..c })
            } else {
                Err(Fault::BadSmooth)
            },
            None => Err(Fault::BadSmooth),
        },
        Valued::Monitors => if v == "all"@ {
            Ok(Settings { monitors: None, ..c })
        } else if names_in(v).len() > 0 {
            Ok(Settings { monitors: Some(names_in(v)), ..c })
        } else {
            Err(Fault::BadMonitors)
        },
        Valued::Pet => Ok(Settings { pet: Some(expanded(v, home)), ..c }),
    }
}

/// An option with a value, written `--key value` or `--key=value`, puts the
/// value in its own setting and leaves the others alone; a value that makes no
/// sense is rejected, under the option's name, and changes nothing. Without a
/// value it is rejected too.
pub proof fn an_option_puts_its_value_in<N: Number>(
    o: Valued,
    c: Settings<N>,
    v: Seq<char>,
    home: Option<Seq<char>>,
)
    ensures
        ({
            let apart = applied_from(c, seq![o.spelled(), v], 0, home);
            let together = applied_from(c, seq![o.spelled() + seq!['='] + v], 0, home);
            &&& apart == together
            &&& match put_in(o, c, v, home) {
                Ok(after) => apart.0 == after && apart.1 is None,
                Err(fault) => apart.0 == c && apart.1 is Some && (apart.1->0).fault == fault && (
                apart.1->0).key == o.spelled() && (apart.1->0).value == v,
            }
        }),
        ({
            let alone = applied_from(c, seq![o.spelled()], 0, home);
            alone.0 == c && alone.1 is Some && (alone.1->0).fault == Fault::NeedsValue && (
            alone.1->0).key == o.spelled()
        }),
{
    lemma_spellings();
    lemma_bare(o.spelled());
    lemma_inline(o.spelled(), v);
    assert(Valued::Sheep.spelled() == "--sheep"@);
    assert(Valued::Scale.spelled() == "--scale"@);
    assert(Valued::Speed.spelled() == "--speed"@);
    assert(Valued::Smooth.spelled() == "--smooth"@);
    assert(Valued::Monitors.spelled() == "--monitors"@);
    assert(Valued::Pet.spelled() == "--pet"@);
    let two = seq![o.spelled(), v];
    let joined = seq![o.spelled() + seq!['='] + v];
    let lone = seq![o.spelled()];
    assert(two[0] == o.spelled() && two[1] == v && two.len() == 2);
    assert(joined[0] == o.spelled() + seq!['='] + v && joined.len() == 1);
    assert(lone[0] == o.spelled() && lone.len() == 1);
    let next = put_in(o, c, v, home);
    if let Ok(after) = next {
        assert(applied_from(after, two, 2, home) == (after, None::<Rejection>));
        assert(applied_from(after, joined, 1, home) == (after, None::<Rejection>));
    }
}

/// A switch turns its own setting on, bare or with `=true`, and off with
/// `=false` or by its `--no-` name, and leaves the others alone. With any
/// other value it is rejected and changes nothing.
pub proof fn a_switch_turns_its_own_setting<N: Number>(
    s: Switch,
    c: Settings<N>,
    v: Seq<char>,
    home: Option<Seq<char>>,
)
    ensures
        applied_from(c, seq![s.on()], 0, home) == (s.set(c, true), None::<Rejection>),
        applied_from(c, seq![s.off()], 0, home) == (
            s.set(c, false),
            None::<Rejection>,
        ),
        v == "true"@ ==> applied_from(c, seq![s.on() + seq!['='] + v], 0, home) == (
            s.set(c, true),
            None::<Rejection>,
        ),
        v == "false"@ ==> applied_from(c, seq![s.on() + seq!['='] + v], 0, home) == (
            s.set(c, false),
            None::<Rejection>,
        ),
        v != "true"@ && v != "false"@ ==> {
            let r = applied_from(c, seq![s.on() + seq!['='] + v], 0, home);
            r.0 == c && r.1 is Some && (r.1->0).fault == Fault::BadFlag
        },
{
    reveal_strlit("true");
    reveal_strlit("false");
    lemma_spellings();
    lemma_bare(s.on());
    lemma_bare(s.off());
    lemma_inline(s.on(), v);
    assert(Valued::Sheep.spelled() == "--sheep"@);
    assert(Valued::Scale.spelled() == "--scale"@);
    assert(Valued::Speed.spelled() == "--speed"@);
    assert(Valued::Smooth.spelled() == "--smooth"@);
    assert(Valued::Monitors.spelled() == "--monitors"@);
    assert(Valued::Pet.spelled() == "--pet"@);
    assert(Switch::Draggable.on() == "--draggable"@ && Switch::Draggable.off()
        == "--no-draggable"@);
    assert(Switch::Throw.on() == "--throw"@ && Switch::Throw.off() == "--no-throw"@);
    assert(Switch::ClimbWindows.on() == "--climb-windows"@ && Switch::ClimbWindows.off()
        == "--no-climb-windows"@);
    assert(Switch::HideFullscreen.on() == "--hide-fullscreen"@ && Switch::HideFullscreen.off()
        == "--no-hide-fullscreen"@);
    assert(Switch::Trace.on() == "--trace"@ && Switch::Trace.off() == "--no-trace"@);
    let (a, b, d) = (seq![s.on()], seq![s.off()], seq![s.on() + seq!['='] + v]);
    assert(a[0] == s.on() && a.len() == 1);
    assert(b[0] == s.off() && b.len() == 1);
    assert(d[0] == s.on() + seq!['='] + v && d.len() == 1);
    assert(!takes_value(s.on()) && !takes_value(s.off()));
    let none = None::<Seq<char>>;
    assert(switched(c, s.on(), none) == Ok::<Settings<N>, Fault>(s.set(c, true)));
    assert(switched(c, s.off(), none) == Ok::<Settings<N>, Fault>(s.set(c, false)));
    assert(applied_from(c, a, 0, home) == applied_from(s.set(c, true), a, 1, home));
    assert(applied_from(c, b, 0, home) == applied_from(s.set(c, false), b, 1, home));
    assert("true"@ != "false"@) by {
        assert("true"@.len() != "false"@.len());
    }
    assert(v == "true"@ ==> switched(c, s.on(), Some(v)) == Ok::<Settings<N>, Fault>(
        s.set(c, true),
    ));
    assert(v == "false"@ ==> switched(c, s.on(), Some(v)) == Ok::<Settings<N>, Fault>(
        s.set(c, false),
    ));
    assert(v != "true"@ && v != "false"@ ==> switched(c, s.on(), Some(v)) == Err::<
        Settings<N>,
        Fault,
    >(Fault::BadFlag));
    assert(v == "true"@ ==> applied_from(c, d, 0, home) == applied_from(
        s.set(c, true),
        d,
        1,
        home,
    ));
    assert(v == "false"@ ==> applied_from(c, d, 0, home) == applied_from(
        s.set(c, false),
        d,
        1,
        home,
    ));
    assert forall|after: Settings<N>, args: Seq<Seq<char>>|
        args.len() == 1 implies #[trigger] applied_from(after, args, 1, home) == (
        after,
        None::<Rejection>,
    ) by {}
}

} // verus!

//! Event records: one line of the event stream, split into a kind and a
//! comma-separated payload, parsed into an `Event`.
use crate::text::{all_digits, copy_chars, eq_chars, is_ws, num_spec, parse_u8};
use vstd::prelude::*;

verus! {

/// A recognized event, ready for the dispatcher.
#[derive(Debug)]
pub enum Event {
    /// `monitoradded` or `monitorremoved`: the topology changed; the caller
    /// must re-seed the store from a fresh snapshot.
    Reload,
    /// `focusedmon`: the named monitor gained focus, showing the workspace.
    FocusedMon { monitor: Vec<char>, workspace: u8 },
    /// `moveworkspace`: the workspace moved to the named monitor.
    MoveWorkspace { workspace: u8, monitor: Vec<char> },
    /// `createworkspace`: a workspace appeared on the focused monitor.
    CreateWorkspace { workspace: u8 },
    /// `workspace`: the given workspace became the one shown on its owner.
    SwitchWorkspace { workspace: u8 },
    /// `destroyworkspace`: the workspace is gone.
    DestroyWorkspace { workspace: u8 },
    /// Any other kind: no effect, no render.
    Ignored,
}

/// Mathematical image of an `Event`.
pub enum EvView {
    Reload,
    FocusedMon { monitor: Seq<char>, workspace: u8 },
    MoveWorkspace { workspace: u8, monitor: Seq<char> },
    CreateWorkspace { workspace: u8 },
    SwitchWorkspace { workspace: u8 },
    DestroyWorkspace { workspace: u8 },
    Ignored,
}

impl View for Event {
    type V = EvView;

    open spec fn view(&self) -> EvView {
        match self {
            Event::Reload => EvView::Reload,
            Event::FocusedMon { monitor, workspace } => EvView::FocusedMon {
                monitor: monitor@,
                workspace: *workspace,
            },
            Event::MoveWorkspace { workspace, monitor } => EvView::MoveWorkspace {
                workspace: *workspace,
                monitor: monitor@,
            },
            Event::CreateWorkspace { workspace } => EvView::CreateWorkspace {
                workspace: *workspace,
            },
            Event::SwitchWorkspace { workspace } => EvView::SwitchWorkspace {
                workspace: *workspace,
            },
            Event::DestroyWorkspace { workspace } => EvView::DestroyWorkspace {
                workspace: *workspace,
            },
            Event::Ignored => EvView::Ignored,
        }
    }
}

/// A malformed event record; the caller treats this as fatal.
#[derive(Clone, Copy, Debug, PartialEq, Eq, Structural)]
pub enum ParseError {
    /// The line has no `>>` separator.
    MissingDelimiter,
    /// The payload has fewer comma-separated fields than the kind requires.
    MissingField,
    /// A field that must be a workspace id is not a decimal number in 0-255.
    InvalidId,
}

/// Number of leading whitespace characters.
pub open spec fn leading_ws(s: Seq<char>) -> int
    decreases s.len(),
{
    if s.len() == 0 || !is_ws(s[0]) {
        0
    } else {
        1 + leading_ws(s.drop_first())
    }
}

/// Number of trailing whitespace characters.
pub open spec fn trailing_ws(s: Seq<char>) -> int
    decreases s.len(),
{
    if s.len() == 0 || !is_ws(s.last()) {
        0
    } else {
        1 + trailing_ws(s.drop_last())
    }
}

/// The input without leading and trailing whitespace.
pub open spec fn trim_spec(s: Seq<char>) -> Seq<char> {
    if leading_ws(s) + trailing_ws(s) <= s.len() {
        s.subrange(leading_ws(s), s.len() - trailing_ws(s))
    } else {
        Seq::empty()
    }
}

proof fn lemma_leading_ws(s: Seq<char>, a: int)
    requires
        0 <= a <= s.len(),
        forall|k: int| 0 <= k < a ==> is_ws(#[trigger] s[k]),
        a < s.len() ==> !is_ws(s[a]),
    ensures
        leading_ws(s) == a,
    decreases a,
{
    if a == 0 {
    } else {
        assert(is_ws(s[0]));
        let t = s.drop_first();
        assert(forall|k: int| 0 <= k < a - 1 ==> #[trigger] t[k] == s[k + 1]);
        lemma_leading_ws(t, a - 1);
    }
}

proof fn lemma_trailing_ws(s: Seq<char>, t: int)
    requires
        0 <= t <= s.len(),
        forall|k: int| s.len() - t <= k < s.len() ==> is_ws(#[trigger] s[k]),
        t < s.len() ==> !is_ws(s[s.len() - t - 1]),
    ensures
        trailing_ws(s) == t,
    decreases t,
{
    if t == 0 {
    } else {
        assert(is_ws(s.last()));
        let u = s.drop_last();
        lemma_trailing_ws(u, t - 1);
    }
}

/// Strips leading and trailing whitespace.
pub fn trim(s: &Vec<char>) -> (r: Vec<char>)
    ensures
        r@ == trim_spec(s@),
{
    let mut a: usize = 0;
    while a < s.len() && is_ws_char(s[a])
        invariant
            0 <= a <= s@.len(),
            s@.len() == s.len(),
            forall|k: int| 0 <= k < a ==> is_ws(#[trigger] s@[k]),
        decreases s@.len() - a,
    {
        a = a + 1;
    }
    proof {
        lemma_leading_ws(s@, a as int);
    }
    let mut b: usize = s.len();
    while b > a && is_ws_char(s[b - 1])
        invariant
            a <= b <= s@.len(),
            s@.len() == s.len(),
            forall|k: int| b <= k < s@.len() ==> is_ws(#[trigger] s@[k]),
        decreases b,
    {
        b = b - 1;
    }
    proof {
        lemma_trailing_ws_bounds(s@);
        if a == s@.len() {
            // all-whitespace input: whatever the trailing count, the result
            // is empty
            assert(b == a);
        } else if b == a {
            // the first loop stopped at a non-whitespace character, so the
            // second cannot reach `a` while seeing only whitespace
            assert(!is_ws(s@[a as int]));
            assert(is_ws(s@[a as int]));
        } else {
            lemma_trailing_ws(s@, (s@.len() - b) as int);
        }
    }
    let mut r: Vec<char> = Vec::new();
    let mut i: usize = a;
    while i < b
        invariant
            a <= i <= b <= s@.len(),
            s@.len() == s.len(),
            r@ == s@.subrange(a as int, i as int),
        decreases b - i,
    {
        r.push(s[i]);
        proof {
            assert(r@ =~= s@.subrange(a as int, i as int + 1));
        }
        i = i + 1;
    }
    proof {
        if a == s@.len() {
            if leading_ws(s@) + trailing_ws(s@) <= s@.len() {
                assert(trailing_ws(s@) == 0);
            }
            assert(r@ =~= trim_spec(s@));
        } else {
            assert(r@ =~= trim_spec(s@));
        }
    }
    r
}

proof fn lemma_trailing_ws_bounds(s: Seq<char>)
    ensures
        0 <= trailing_ws(s) <= s.len(),
    decreases s.len(),
{
    if s.len() > 0 && is_ws(s.last()) {
        lemma_trailing_ws_bounds(s.drop_last());
    }
}

/// Whitespace test on a character.
pub fn is_ws_char(c: char) -> (r: bool)
    ensures
        r == is_ws(c),
{
    c == ' ' || c == '\t' || c == '\n' || c == '\r' || c == '\x0b' || c == '\x0c'
}

/// Position of the first `>>` at or after `i`.
pub open spec fn find_delim_from(s: Seq<char>, i: int) -> Option<int>
    decreases s.len() - i,
{
    if i < 0 || i + 2 > s.len() {
        Option::None
    } else if s[i] == '>' && s[i + 1] == '>' {
        Option::Some(i)
    } else {
        find_delim_from(s, i + 1)
    }
}

/// Position of the first `c` at or after `i`.
pub open spec fn find_char_from(s: Seq<char>, c: char, i: int) -> Option<int>
    decreases s.len() - i,
{
    if i < 0 || i >= s.len() {
        Option::None
    } else if s[i] == c {
        Option::Some(i)
    } else {
        find_char_from(s, c, i + 1)
    }
}

/// First comma-separated field of a payload.
pub open spec fn field0(s: Seq<char>) -> Seq<char> {
    match find_char_from(s, ',', 0) {
        Option::Some(i) => s.take(i),
        Option::None => s,
    }
}

/// Second comma-separated field of a payload, when there is one.
pub open spec fn field1(s: Seq<char>) -> Option<Seq<char>> {
    match find_char_from(s, ',', 0) {
        Option::Some(i) => match find_char_from(s, ',', i + 1) {
            Option::Some(j) => Option::Some(s.subrange(i + 1, j)),
            Option::None => Option::Some(s.skip(i + 1)),
        },
        Option::None => Option::None,
    }
}

/// Finds the first comma at or after `from`.
fn find_comma(s: &Vec<char>, from: usize) -> (r: Option<usize>)
    requires
        from <= s@.len(),
    ensures
        match r {
            Option::Some(i) => find_char_from(s@, ',', from as int) == Option::Some(i as int)
                && from <= i < s@.len(),
            Option::None => find_char_from(s@, ',', from as int) is None,
        },
{
    let mut i: usize = from;
    while i < s.len()
        invariant
            from <= i <= s@.len(),
            s@.len() == s.len(),
            find_char_from(s@, ',', from as int) == find_char_from(s@, ',', i as int),
        decreases s@.len() - i,
    {
        if s[i] == ',' {
            return Option::Some(i);
        }
        i = i + 1;
    }
    Option::None
}

/// Copies `s[a..b]`.
fn slice_chars(s: &Vec<char>, a: usize, b: usize) -> (r: Vec<char>)
    requires
        a <= b <= s@.len(),
    ensures
        r@ == s@.subrange(a as int, b as int),
{
    let mut r: Vec<char> = Vec::new();
    let mut i: usize = a;
    while i < b
        invariant
            a <= i <= b <= s@.len(),
            s@.len() == s.len(),
            r@ == s@.subrange(a as int, i as int),
        decreases b - i,
    {
        r.push(s[i]);
        proof {
            assert(r@ =~= s@.subrange(a as int, i as int + 1));
        }
        i = i + 1;
    }
    r
}

/// Splits a trimmed line into kind and payload at the first `>>`.
pub open spec fn split_line_spec(line: Seq<char>) -> Result<(Seq<char>, Seq<char>), ParseError> {
    let t = trim_spec(line);
    match find_delim_from(t, 0) {
        Option::Some(d) => Result::Ok((t.take(d), t.skip(d + 2))),
        Option::None => Result::Err(ParseError::MissingDelimiter),
    }
}

/// Trims a raw line and splits it into `(kind, payload)` at the first `>>`.
pub fn split_line(line: &Vec<char>) -> (r: Result<(Vec<char>, Vec<char>), ParseError>)
    ensures
        match r {
            Result::Ok(kp) => split_line_spec(line@) == Result::<(Seq<char>, Seq<char>), ParseError>::Ok((kp.0@, kp.1@)),
            Result::Err(e) => split_line_spec(line@) == Result::<(Seq<char>, Seq<char>), ParseError>::Err(e),
        },
{
    let t = trim(line);
    let mut i: usize = 0;
    while i < t.len()
        invariant
            0 <= i <= t@.len(),
            t@.len() == t.len(),
            t@ == trim_spec(line@),
            find_delim_from(t@, 0) == find_delim_from(t@, i as int),
        decreases t@.len() - i,
    {
        if i + 1 < t.len() && t[i] == '>' && t[i + 1] == '>' {
            let kind = slice_chars(&t, 0, i);
            let payload = slice_chars(&t, i + 2, t.len());
            proof {
                assert(kind@ =~= t@.take(i as int));
                assert(payload@ =~= t@.skip(i as int + 2));
            }
            return Result::Ok((kind, payload));
        }
        i = i + 1;
    }
    Result::Err(ParseError::MissingDelimiter)
}

pub open spec fn kind_monitoradded() -> Seq<char> {
    seq!['m', 'o', 'n', 'i', 't', 'o', 'r', 'a', 'd', 'd', 'e', 'd']
}

pub open spec fn kind_monitorremoved() -> Seq<char> {
    seq!['m', 'o', 'n', 'i', 't', 'o', 'r', 'r', 'e', 'm', 'o', 'v', 'e', 'd']
}

pub open spec fn kind_focusedmon() -> Seq<char> {
    seq!['f', 'o', 'c', 'u', 's', 'e', 'd', 'm', 'o', 'n']
}

pub open spec fn kind_moveworkspace() -> Seq<char> {
    seq!['m', 'o', 'v', 'e', 'w', 'o', 'r', 'k', 's', 'p', 'a', 'c', 'e']
}

pub open spec fn kind_createworkspace() -> Seq<char> {
    seq!['c', 'r', 'e', 'a', 't', 'e', 'w', 'o', 'r', 'k', 's', 'p', 'a', 'c', 'e']
}

pub open spec fn kind_workspace() -> Seq<char> {
    seq!['w', 'o', 'r', 'k', 's', 'p', 'a', 'c', 'e']
}

pub open spec fn kind_destroyworkspace() -> Seq<char> {
    seq!['d', 'e', 's', 't', 'r', 'o', 'y', 'w', 'o', 'r', 'k', 's', 'p', 'a', 'c', 'e']
}

fn lit_monitoradded() -> (r: Vec<char>)
    ensures
        r@ == kind_monitoradded(),
{
    let r = vec!['m', 'o', 'n', 'i', 't', 'o', 'r', 'a', 'd', 'd', 'e', 'd'];
    proof {
        assert(r@ =~= kind_monitoradded());
    }
    r
}

fn lit_monitorremoved() -> (r: Vec<char>)
    ensures
        r@ == kind_monitorremoved(),
{
    let r = vec!['m', 'o', 'n', 'i', 't', 'o', 'r', 'r', 'e', 'm', 'o', 'v', 'e', 'd'];
    proof {
        assert(r@ =~= kind_monitorremoved());
    }
    r
}

fn lit_focusedmon() -> (r: Vec<char>)
    ensures
        r@ == kind_focusedmon(),
{
    let r = vec!['f', 'o', 'c', 'u', 's', 'e', 'd', 'm', 'o', 'n'];
    proof {
        assert(r@ =~= kind_focusedmon());
    }
    r
}

fn lit_moveworkspace() -> (r: Vec<char>)
    ensures
        r@ == kind_moveworkspace(),
{
    let r = vec!['m', 'o', 'v', 'e', 'w', 'o', 'r', 'k', 's', 'p', 'a', 'c', 'e'];
    proof {
        assert(r@ =~= kind_moveworkspace());
    }
    r
}

fn lit_createworkspace() -> (r: Vec<char>)
    ensures
        r@ == kind_createworkspace(),
{
    let r = vec!['c', 'r', 'e', 'a', 't', 'e', 'w', 'o', 'r', 'k', 's', 'p', 'a', 'c', 'e'];
    proof {
        assert(r@ =~= kind_createworkspace());
    }
    r
}

fn lit_workspace() -> (r: Vec<char>)
    ensures
        r@ == kind_workspace(),
{
    let r = vec!['w', 'o', 'r', 'k', 's', 'p', 'a', 'c', 'e'];
    proof {
        assert(r@ =~= kind_workspace());
    }
    r
}

fn lit_destroyworkspace() -> (r: Vec<char>)
    ensures
        r@ == kind_destroyworkspace(),
{
    let r = vec!['d', 'e', 's', 't', 'r', 'o', 'y', 'w', 'o', 'r', 'k', 's', 'p', 'a', 'c', 'e'];
    proof {
        assert(r@ =~= kind_destroyworkspace());
    }
    r
}

/// Whether a field is a decimal workspace id.
pub open spec fn id_ok(s: Seq<char>) -> bool {
    all_digits(s) && num_spec(s) <= 255
}

/// What parsing a `(kind, payload)` record yields.
pub open spec fn parse_event_spec(kind: Seq<char>, payload: Seq<char>) -> Result<
    EvView,
    ParseError,
> {
    if kind == kind_monitoradded() || kind == kind_monitorremoved() {
        Result::Ok(EvView::Reload)
    } else if kind == kind_focusedmon() {
        match field1(payload) {
            Option::None => Result::Err(ParseError::MissingField),
            Option::Some(f1) => if id_ok(f1) {
                Result::Ok(
                    EvView::FocusedMon {
                        monitor: field0(payload),
                        workspace: num_spec(f1) as u8,
                    },
                )
            } else {
                Result::Err(ParseError::InvalidId)
            },
        }
    } else if kind == kind_moveworkspace() {
        match field1(payload) {
            Option::None => Result::Err(ParseError::MissingField),
            Option::Some(f1) => if id_ok(field0(payload)) {
                Result::Ok(
                    EvView::MoveWorkspace {
                        workspace: num_spec(field0(payload)) as u8,
                        monitor: f1,
                    },
                )
            } else {
                Result::Err(ParseError::InvalidId)
            },
        }
    } else if kind == kind_createworkspace() {
        if id_ok(payload) {
            Result::Ok(EvView::CreateWorkspace { workspace: num_spec(payload) as u8 })
        } else {
            Result::Err(ParseError::InvalidId)
        }
    } else if kind == kind_workspace() {
        if id_ok(payload) {
            Result::Ok(EvView::SwitchWorkspace { workspace: num_spec(payload) as u8 })
        } else {
            Result::Err(ParseError::InvalidId)
        }
    } else if kind == kind_destroyworkspace() {
        if id_ok(payload) {
            Result::Ok(EvView::DestroyWorkspace { workspace: num_spec(payload) as u8 })
        } else {
            Result::Err(ParseError::InvalidId)
        }
    } else {
        Result::Ok(EvView::Ignored)
    }
}

/// Parses a `(kind, payload)` record into an event.
pub fn parse_event(kind: &Vec<char>, payload: &Vec<char>) -> (r: Result<Event, ParseError>)
    ensures
        match r {
            Result::Ok(ev) => parse_event_spec(kind@, payload@) == Result::<EvView, ParseError>::Ok(ev@),
            Result::Err(e) => parse_event_spec(kind@, payload@) == Result::<EvView, ParseError>::Err(e),
        },
{
    if eq_chars(kind, &lit_monitoradded()) || eq_chars(kind, &lit_monitorremoved()) {
        Result::Ok(Event::Reload)
    } else if eq_chars(kind, &lit_focusedmon()) {
        let (f0, f1) = split_fields(payload);
        match f1 {
            Option::None => Result::Err(ParseError::MissingField),
            Option::Some(f1) => match parse_u8(&f1) {
                Option::Some(id) => Result::Ok(
                    Event::FocusedMon { monitor: f0, workspace: id },
                ),
                Option::None => Result::Err(ParseError::InvalidId),
            },
        }
    } else if eq_chars(kind, &lit_moveworkspace()) {
        let (f0, f1) = split_fields(payload);
        match f1 {
            Option::None => Result::Err(ParseError::MissingField),
            Option::Some(f1) => match parse_u8(&f0) {
                Option::Some(id) => Result::Ok(
                    Event::MoveWorkspace { workspace: id, monitor: f1 },
                ),
                Option::None => Result::Err(ParseError::InvalidId),
            },
        }
    } else if eq_chars(kind, &lit_createworkspace()) {
        match parse_u8(payload) {
            Option::Some(id) => Result::Ok(Event::CreateWorkspace { workspace: id }),
            Option::None => Result::Err(ParseError::InvalidId),
        }
    } else if eq_chars(kind, &lit_workspace()) {
        match parse_u8(payload) {
            Option::Some(id) => Result::Ok(Event::SwitchWorkspace { workspace: id }),
            Option::None => Result::Err(ParseError::InvalidId),
        }
    } else if eq_chars(kind, &lit_destroyworkspace()) {
        match parse_u8(payload) {
            Option::Some(id) => Result::Ok(Event::DestroyWorkspace { workspace: id }),
            Option::None => Result::Err(ParseError::InvalidId),
        }
    } else {
        Result::Ok(Event::Ignored)
    }
}

/// Splits a payload into its first field and, when a comma is present, its
/// second field.
fn split_fields(payload: &Vec<char>) -> (r: (Vec<char>, Option<Vec<char>>))
    ensures
        r.0@ == field0(payload@),
        match r.1 {
            Option::Some(f1) => field1(payload@) == Option::Some(f1@),
            Option::None => field1(payload@) is None,
        },
{
    let n = payload.len();
    match find_comma(payload, 0) {
        Option::Some(i) => {
            proof {
                assert(i < n);
            }
            let f0 = slice_chars(payload, 0, i);
            proof {
                assert(f0@ =~= payload@.take(i as int));
            }
            let f1 = match find_comma(payload, i + 1) {
                Option::Some(j) => slice_chars(payload, i + 1, j),
                Option::None => {
                    let t = slice_chars(payload, i + 1, payload.len());
                    proof {
                        assert(t@ =~= payload@.skip(i as int + 1));
                    }
                    t
                },
            };
            (f0, Option::Some(f1))
        },
        Option::None => (copy_chars(payload), Option::None),
    }
}

/// Parses one raw line of the event stream.
pub open spec fn parse_line_spec(line: Seq<char>) -> Result<EvView, ParseError> {
    match split_line_spec(line) {
        Result::Ok(kp) => parse_event_spec(kp.0, kp.1),
        Result::Err(e) => Result::Err(e),
    }
}

/// Trims, splits and parses one raw line of the event stream.
pub fn parse_line(line: &Vec<char>) -> (r: Result<Event, ParseError>)
    ensures
        match r {
            Result::Ok(ev) => parse_line_spec(line@) == Result::<EvView, ParseError>::Ok(ev@),
            Result::Err(e) => parse_line_spec(line@) == Result::<EvView, ParseError>::Err(e),
        },
{
    match split_line(line) {
        Result::Ok(kp) => parse_event(&kp.0, &kp.1),
        Result::Err(e) => Result::Err(e),
    }
}

} // verus!

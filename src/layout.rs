//! Spatial layout directives: `#position:<id>:<x>,<y>` comment lines.
use crate::text::{chars_of, copy_range, is_ws, split_chars, split_on, string_of, trim, trim_chars, trim_end, trim_start, views};
use vstd::prelude::*;

verus! {

/// Index of the first `c` in `s`, or `s.len()` where there is none.
pub open spec fn find(s: Seq<char>, c: char) -> int
    decreases s.len(),
{
    if s.len() == 0 {
        0
    } else if s[0] == c {
        0
    } else {
        1 + find(s.drop_first(), c)
    }
}

pub fn find_char(s: &Vec<char>, c: char) -> (r: usize)
    ensures
        r == find(s@, c),
        r <= s.len(),
{
    let n = s.len();
    let mut i: usize = 0;
    assert(s@.skip(0) =~= s@);
    while i < n && s[i] != c
        invariant
            i <= n == s.len(),
            find(s@, c) == i + find(s@.skip(i as int), c),
        decreases n - i,
    {
        assert(s@.skip(i as int).drop_first() =~= s@.skip(i + 1));
        i += 1;
    }
    i
}

pub open spec fn is_digit(c: char) -> bool {
    '0' <= c && c <= '9'
}

pub open spec fn is_sign(c: char) -> bool {
    c == '+' || c == '-'
}

pub open spec fn is_exp_mark(c: char) -> bool {
    c == 'e' || c == 'E'
}

/// State reached from state 0 on an unacceptable character.
pub const DEAD: u8 = 8;

/// One step of the recogniser of decimal numbers
/// `Sign? (Digit+ | Digit+ '.' Digit* | Digit* '.' Digit+) (('e'|'E') Sign? Digit+)?`.
pub open spec fn number_step(st: u8, c: char) -> u8 {
    if st == 0 {
        if is_sign(c) { 1 } else if is_digit(c) { 2 } else if c == '.' { 3 } else { DEAD }
    } else if st == 1 {
        if is_digit(c) { 2 } else if c == '.' { 3 } else { DEAD }
    } else if st == 2 {
        if is_digit(c) { 2 } else if c == '.' { 4 } else if is_exp_mark(c) { 5 } else { DEAD }
    } else if st == 3 {
        if is_digit(c) { 4 } else { DEAD }
    } else if st == 4 {
        if is_digit(c) { 4 } else if is_exp_mark(c) { 5 } else { DEAD }
    } else if st == 5 {
        if is_sign(c) { 6 } else if is_digit(c) { 7 } else { DEAD }
    } else if st == 6 || st == 7 {
        if is_digit(c) { 7 } else { DEAD }
    } else {
        DEAD
    }
}

fn number_step_exec(st: u8, c: char) -> (r: u8)
    ensures
        r == number_step(st, c),
{
    let digit = '0' <= c && c <= '9';
    let sign = c == '+' || c == '-';
    let exp = c == 'e' || c == 'E';
    if st == 0 {
        if sign { 1 } else if digit { 2 } else if c == '.' { 3 } else { DEAD }
    } else if st == 1 {
        if digit { 2 } else if c == '.' { 3 } else { DEAD }
    } else if st == 2 {
        if digit { 2 } else if c == '.' { 4 } else if exp { 5 } else { DEAD }
    } else if st == 3 {
        if digit { 4 } else { DEAD }
    } else if st == 4 {
        if digit { 4 } else if exp { 5 } else { DEAD }
    } else if st == 5 {
        if sign { 6 } else if digit { 7 } else { DEAD }
    } else if st == 6 || st == 7 {
        if digit { 7 } else { DEAD }
    } else {
        DEAD
    }
}

pub open spec fn number_state(s: Seq<char>) -> u8
    decreases s.len(),
{
    if s.len() == 0 {
        0
    } else {
        number_step(number_state(s.drop_last()), s.last())
    }
}

pub open spec fn is_number(s: Seq<char>) -> bool {
    let st = number_state(s);
    st == 2 || st == 4 || st == 7
}

/// `a` spells the word whose lower-case form is `w` and upper-case form `u`,
/// each letter in either case.
pub open spec fn same_word(a: Seq<char>, w: Seq<char>, u: Seq<char>) -> bool {
    a.len() == w.len() && a.len() == u.len() && forall|i: int|
        0 <= i < a.len() ==> (a[i] == w[i] || a[i] == u[i])
}

pub open spec fn unsigned_part(s: Seq<char>) -> Seq<char> {
    if s.len() > 0 && is_sign(s[0]) {
        s.drop_first()
    } else {
        s
    }
}

pub open spec fn word_inf() -> Seq<char> {
    seq!['i', 'n', 'f']
}

pub open spec fn word_infinity() -> Seq<char> {
    seq!['i', 'n', 'f', 'i', 'n', 'i', 't', 'y']
}

pub open spec fn word_nan() -> Seq<char> {
    seq!['n', 'a', 'n']
}

pub open spec fn word_inf_upper() -> Seq<char> {
    seq!['I', 'N', 'F']
}

pub open spec fn word_infinity_upper() -> Seq<char> {
    seq!['I', 'N', 'F', 'I', 'N', 'I', 'T', 'Y']
}

pub open spec fn word_nan_upper() -> Seq<char> {
    seq!['N', 'A', 'N']
}

/// The text of a coordinate: what `str::parse::<f64>` accepts, following the
/// grammar that std documents for it (a decimal number, `inf`, `infinity` or
/// `nan`, letters in any case, with an optional sign).
pub open spec fn is_coordinate(s: Seq<char>) -> bool {
    is_number(s) || same_word(unsigned_part(s), word_inf(), word_inf_upper()) || same_word(
        unsigned_part(s),
        word_infinity(),
        word_infinity_upper(),
    ) || same_word(unsigned_part(s), word_nan(), word_nan_upper())
}

fn same_word_exec(a: &Vec<char>, lo: usize, w: &Vec<char>, u: &Vec<char>) -> (r: bool)
    requires
        lo <= a.len(),
    ensures
        r == same_word(a@.skip(lo as int), w@, u@),
{
    if a.len() - lo != w.len() || w.len() != u.len() {
        return false;
    }
    let mut i: usize = 0;
    while i < w.len()
        invariant
            a.len() - lo == w.len(),
            w.len() == u.len(),
            lo <= a.len(),
            i <= w.len(),
            forall|j: int|
                0 <= j < i ==> (a@.skip(lo as int)[j] == w@[j] || a@.skip(lo as int)[j] == u@[j]),
        decreases w.len() - i,
    {
        let c = a[lo + i];
        if !(c == w[i] || c == u[i]) {
            return false;
        }
        i += 1;
    }
    true
}

pub fn coordinate_check(s: &Vec<char>) -> (r: bool)
    ensures
        r == is_coordinate(s@),
{
    let mut st: u8 = 0;
    let mut i: usize = 0;
    assert(s@.take(0) =~= Seq::<char>::empty());
    while i < s.len()
        invariant
            i <= s.len(),
            st == number_state(s@.take(i as int)),
        decreases s.len() - i,
    {
        assert(s@.take(i + 1).drop_last() =~= s@.take(i as int));
        st = number_step_exec(st, s[i]);
        i += 1;
    }
    assert(s@.take(s.len() as int) =~= s@);
    if st == 2 || st == 4 || st == 7 {
        return true;
    }
    let lo: usize = if s.len() > 0 && (s[0] == '+' || s[0] == '-') { 1 } else { 0 };
    assert(unsigned_part(s@) =~= s@.skip(lo as int));
    let inf = vec!['i', 'n', 'f'];
    let infinity = vec!['i', 'n', 'f', 'i', 'n', 'i', 't', 'y'];
    let nan = vec!['n', 'a', 'n'];
    assert(inf@ =~= word_inf());
    assert(infinity@ =~= word_infinity());
    assert(nan@ =~= word_nan());
    let inf_u = vec!['I', 'N', 'F'];
    let infinity_u = vec!['I', 'N', 'F', 'I', 'N', 'I', 'T', 'Y'];
    let nan_u = vec!['N', 'A', 'N'];
    assert(inf_u@ =~= word_inf_upper());
    assert(infinity_u@ =~= word_infinity_upper());
    assert(nan_u@ =~= word_nan_upper());
    same_word_exec(s, lo, &inf, &inf_u) || same_word_exec(s, lo, &infinity, &infinity_u)
        || same_word_exec(s, lo, &nan, &nan_u)
}

} // verus!

verus! {

pub open spec fn is_id_char(c: char) -> bool {
    ('a' <= c && c <= 'z') || ('A' <= c && c <= 'Z') || ('0' <= c && c <= '9') || c == '_'
}

/// Letters, digits and underscores, at least one.
pub open spec fn is_identifier(s: Seq<char>) -> bool {
    s.len() > 0 && forall|i: int| 0 <= i < s.len() ==> is_id_char(#[trigger] s[i])
}

fn identifier_check(s: &Vec<char>) -> (r: bool)
    ensures
        r == is_identifier(s@),
{
    if s.len() == 0 {
        return false;
    }
    let mut i: usize = 0;
    while i < s.len()
        invariant
            i <= s.len(),
            forall|j: int| 0 <= j < i ==> is_id_char(#[trigger] s@[j]),
        decreases s.len() - i,
    {
        let c = s[i];
        if !(('a' <= c && c <= 'z') || ('A' <= c && c <= 'Z') || ('0' <= c && c <= '9') || c
            == '_') {
            return false;
        }
        i += 1;
    }
    true
}

pub open spec fn position_prefix() -> Seq<char> {
    seq!['#', 'p', 'o', 's', 'i', 't', 'i', 'o', 'n', ':']
}

/// The id and the two coordinate texts of a trimmed line
/// `#position:<id>:<x>,<y>`; `None` for any other line.
pub open spec fn position_directive(t: Seq<char>) -> Option<(Seq<char>, Seq<char>, Seq<char>)> {
    let p = position_prefix();
    if t.len() >= p.len() && t.take(p.len() as int) == p {
        let rest = t.skip(p.len() as int);
        let k = find(rest, ':');
        let coords = rest.skip(k + 1);
        let c = find(coords, ',');
        if k < rest.len() && is_identifier(rest.take(k)) && c < coords.len() && is_coordinate(
            coords.take(c),
        ) && is_coordinate(coords.skip(c + 1)) {
            Some((rest.take(k), coords.take(c), coords.skip(c + 1)))
        } else {
            None
        }
    } else {
        None
    }
}

pub fn parse_position_line(t: &Vec<char>) -> (r: Option<(Vec<char>, Vec<char>, Vec<char>)>)
    ensures
        match r {
            Some(d) => position_directive(t@) == Some((d.0@, d.1@, d.2@)),
            None => position_directive(t@) is None,
        },
{
    let p = vec!['#', 'p', 'o', 's', 'i', 't', 'i', 'o', 'n', ':'];
    assert(p@ =~= position_prefix());
    if t.len() < p.len() {
        return None;
    }
    let mut i: usize = 0;
    while i < p.len()
        invariant
            i <= p.len() <= t.len(),
            p@ == position_prefix(),
            forall|j: int| 0 <= j < i ==> t@[j] == p@[j],
        decreases p.len() - i,
    {
        if t[i] != p[i] {
            assert(t@.take(p.len() as int)[i as int] != p@[i as int]);
            return None;
        }
        i += 1;
    }
    assert(t@.take(p.len() as int) =~= p@);
    let rest = copy_range(t, p.len(), t.len());
    let k = find_char(&rest, ':');
    if k >= rest.len() {
        return None;
    }
    let id = copy_range(&rest, 0, k);
    if !identifier_check(&id) {
        return None;
    }
    let coords = copy_range(&rest, k + 1, rest.len());
    let c = find_char(&coords, ',');
    if c >= coords.len() {
        return None;
    }
    let x = copy_range(&coords, 0, c);
    let y = copy_range(&coords, c + 1, coords.len());
    if !coordinate_check(&x) || !coordinate_check(&y) {
        return None;
    }
    Some((id, x, y))
}

/// One entry of a layout: a variable's name and the texts of its two coordinates.
pub struct LayoutEntry {
    pub name: String,
    pub x: String,
    pub y: String,
}

/// A mapping from variable names to positions, kept in the order in which the
/// names first appeared.
pub struct Layout {
    pub entries: Vec<LayoutEntry>,
}

/// The mapping that a sequence of entries describes; a later entry for a name
/// replaces an earlier one.
pub open spec fn entries_map(s: Seq<LayoutEntry>) -> Map<Seq<char>, (Seq<char>, Seq<char>)>
    decreases s.len(),
{
    if s.len() == 0 {
        Map::empty()
    } else {
        entries_map(s.drop_last()).insert(s.last().name@, (s.last().x@, s.last().y@))
    }
}

pub proof fn lemma_entries_map_update(s: Seq<LayoutEntry>, j: int, e: LayoutEntry)
    requires
        0 <= j < s.len(),
        s[j].name@ == e.name@,
        forall|a: int, b: int| 0 <= a < b < s.len() ==> s[a].name@ != s[b].name@,
    ensures
        entries_map(s.update(j, e)) == entries_map(s).insert(e.name@, (e.x@, e.y@)),
    decreases s.len(),
{
    let t = s.update(j, e);
    if j == s.len() - 1 {
        assert(t.drop_last() =~= s.drop_last());
        assert(entries_map(t) =~= entries_map(s).insert(e.name@, (e.x@, e.y@)));
    } else {
        assert(t.drop_last() =~= s.drop_last().update(j, e));
        lemma_entries_map_update(s.drop_last(), j, e);
        assert(entries_map(t) =~= entries_map(s).insert(e.name@, (e.x@, e.y@)));
    }
}

impl View for Layout {
    type V = Map<Seq<char>, (Seq<char>, Seq<char>)>;

    open spec fn view(&self) -> Self::V {
        entries_map(self.entries@)
    }
}

impl Layout {
    /// Each name stands in one entry only.
    pub open spec fn wf(&self) -> bool {
        forall|a: int, b: int|
            0 <= a < b < self.entries@.len() ==> self.entries@[a].name@
                != self.entries@[b].name@
    }

    /// Every coordinate is one that `str::parse::<f64>` accepts.
    pub open spec fn coordinates_ok(&self) -> bool {
        forall|i: int|
            0 <= i < self.entries@.len() ==> is_coordinate(#[trigger] self.entries@[i].x@)
                && is_coordinate(self.entries@[i].y@)
    }

    pub fn new() -> (r: Layout)
        ensures
            r.wf(),
            r.coordinates_ok(),
            r@ == Map::<Seq<char>, (Seq<char>, Seq<char>)>::empty(),
    {
        Layout { entries: Vec::new() }
    }

    /// Sets the position of `name`, replacing the one it had.
    pub fn insert(&mut self, name: String, x: String, y: String)
        requires
            old(self).wf(),
        ensures
            final(self).wf(),
            final(self)@ == old(self)@.insert(name@, (x@, y@)),
            old(self).coordinates_ok() && is_coordinate(x@) && is_coordinate(y@)
                ==> final(self).coordinates_ok(),
    {
        let ghost old_entries = self.entries@;
        let mut j: usize = 0;
        while j < self.entries.len() && self.entries[j].name != name
            invariant
                self.entries@ == old_entries,
                self.wf(),
                j <= self.entries.len(),
                forall|a: int| 0 <= a < j ==> self.entries@[a].name@ != name@,
            decreases self.entries.len() - j,
        {
            j += 1;
        }
        let e = LayoutEntry { name, x, y };
        if j < self.entries.len() {
            proof {
                lemma_entries_map_update(old_entries, j as int, e);
            }
            self.entries.set(j, e);
            assert(self.entries@ =~= old_entries.update(j as int, e));
            assert(forall|a: int| 0 <= a < self.entries@.len() ==> #[trigger] self.entries@[a].name@
                == old_entries[a].name@);
        } else {
            self.entries.push(e);
            assert(self.entries@.drop_last() =~= old_entries);
        }
    }
}

/// The layout that the lines `ls` give, last directive for a name winning.
pub open spec fn layout_lines(ls: Seq<Seq<char>>) -> Map<Seq<char>, (Seq<char>, Seq<char>)>
    decreases ls.len(),
{
    if ls.len() == 0 {
        Map::empty()
    } else {
        let m = layout_lines(ls.drop_last());
        match position_directive(trim(ls.last())) {
            Some(d) => m.insert(d.0, (d.1, d.2)),
            None => m,
        }
    }
}

/// The layout that a model text holds in its position directives.
pub open spec fn layout_of(text: Seq<char>) -> Map<Seq<char>, (Seq<char>, Seq<char>)> {
    layout_lines(split_on(text, '\n'))
}

/// Reads the position directives of a model text. Lines that are no such
/// directive, or whose coordinates do not parse, are skipped.
pub fn read_layout(text: &str) -> (r: Layout)
    ensures
        r.wf(),
        r.coordinates_ok(),
        r@ == layout_of(text@),
{
    let chars = chars_of(text);
    let lines = split_chars(&chars, '\n');
    let ghost ls = split_on(text@, '\n');
    let mut layout = Layout::new();
    let mut i: usize = 0;
    assert(ls.take(0) =~= Seq::<Seq<char>>::empty());
    while i < lines.len()
        invariant
            i <= lines.len(),
            views(lines@) == ls,
            layout.wf(),
            layout.coordinates_ok(),
            layout@ == layout_lines(ls.take(i as int)),
        decreases lines.len() - i,
    {
        assert(ls.take(i + 1).drop_last() =~= ls.take(i as int));
        assert(ls.take(i + 1).last() == lines@[i as int]@);
        let line = trim_chars(&lines[i]);
        match parse_position_line(&line) {
            Some(d) => {
                layout.insert(string_of(d.0.as_slice()), string_of(d.1.as_slice()), string_of(d.2.as_slice()));
            },
            None => {},
        }
        i += 1;
    }
    assert(ls.take(lines.len() as int) =~= ls);
    layout
}

/// One position directive, without its line end.
pub open spec fn position_line(name: Seq<char>, x: Seq<char>, y: Seq<char>) -> Seq<char> {
    position_prefix() + name + seq![':'] + x + seq![','] + y
}

/// The directives of a sequence of entries, one line each, in order.
pub open spec fn encode_entries(s: Seq<LayoutEntry>) -> Seq<char>
    decreases s.len(),
{
    if s.len() == 0 {
        Seq::empty()
    } else {
        encode_entries(s.drop_last()) + position_line(s.last().name@, s.last().x@, s.last().y@)
            + seq!['\n']
    }
}

fn append_chars(out: &mut Vec<char>, s: &Vec<char>)
    ensures
        final(out)@ == old(out)@ + s@,
{
    let ghost start = out@;
    let mut i: usize = 0;
    while i < s.len()
        invariant
            i <= s.len(),
            out@ == start + s@.take(i as int),
        decreases s.len() - i,
    {
        out.push(s[i]);
        i += 1;
        assert(out@ =~= start + s@.take(i as int));
    }
    assert(s@.take(s.len() as int) =~= s@);
}

/// Writes a layout as position directives, one line per entry, in the order of the entries.
pub fn encode_layout(layout: &Layout) -> (r: String)
    ensures
        r@ == encode_entries(layout.entries@),
{
    let mut out: Vec<char> = Vec::new();
    let prefix = vec!['#', 'p', 'o', 's', 'i', 't', 'i', 'o', 'n', ':'];
    let mut i: usize = 0;
    while i < layout.entries.len()
        invariant
            i <= layout.entries.len(),
            prefix@ == position_prefix(),
            out@ == encode_entries(layout.entries@.take(i as int)),
        decreases layout.entries.len() - i,
    {
        let e = &layout.entries[i];
        let ghost before = out@;
        append_chars(&mut out, &prefix);
        append_chars(&mut out, &chars_of(e.name.as_str()));
        out.push(':');
        append_chars(&mut out, &chars_of(e.x.as_str()));
        out.push(',');
        append_chars(&mut out, &chars_of(e.y.as_str()));
        out.push('\n');
        assert(layout.entries@.take(i + 1).drop_last() =~= layout.entries@.take(i as int));
        assert(out@ =~= before + position_line(e.name@, e.x@, e.y@) + seq!['\n']);
        i += 1;
    }
    assert(layout.entries@.take(layout.entries.len() as int) =~= layout.entries@);
    string_of(out.as_slice())
}

} // verus!

verus! {

/// A character that none of the directive separators or whitespace matches.
pub open spec fn plain_char(c: char) -> bool {
    !is_ws(c) && c != ',' && c != ':'
}

proof fn lemma_number_chars(s: Seq<char>)
    requires
        number_state(s) != DEAD,
    ensures
        forall|i: int| 0 <= i < s.len() ==> plain_char(#[trigger] s[i]),
    decreases s.len(),
{
    if s.len() > 0 {
        let st = number_state(s.drop_last());
        assert(st != DEAD);
        lemma_number_chars(s.drop_last());
        assert forall|i: int| 0 <= i < s.len() implies plain_char(#[trigger] s[i]) by {
            if i < s.len() - 1 {
                assert(s[i] == s.drop_last()[i]);
            }
        }
    }
}

proof fn lemma_find_after(a: Seq<char>, c: char, b: Seq<char>)
    requires
        forall|i: int| 0 <= i < a.len() ==> #[trigger] a[i] != c,
    ensures
        find(a + seq![c] + b, c) == a.len(),
    decreases a.len(),
{
    if a.len() > 0 {
        assert((a + seq![c] + b).drop_first() =~= a.drop_first() + seq![c] + b);
        assert forall|i: int| 0 <= i < a.drop_first().len() implies #[trigger] a.drop_first()[i]
            != c by {
            assert(a.drop_first()[i] == a[i + 1]);
        }
        lemma_find_after(a.drop_first(), c, b);
    } else {
        assert((a + seq![c] + b)[0] == c);
    }
}

proof fn lemma_split_append(s: Seq<char>, t: Seq<char>, sep: char)
    requires
        forall|i: int| 0 <= i < t.len() ==> #[trigger] t[i] != sep,
    ensures
        split_on(s + t, sep) == split_on(s, sep).update(
            split_on(s, sep).len() - 1,
            split_on(s, sep).last() + t,
        ),
    decreases t.len(),
{
    crate::text::lemma_split_on_len(s, sep);
    let init = split_on(s, sep);
    if t.len() == 0 {
        assert(s + t =~= s);
        assert(init.update(init.len() - 1, init.last() + t) =~= init);
    } else {
        let t0 = t.drop_last();
        assert forall|i: int| 0 <= i < t0.len() implies #[trigger] t0[i] != sep by {
            assert(t0[i] == t[i]);
        }
        lemma_split_append(s, t0, sep);
        assert((s + t).drop_last() =~= s + t0);
        assert((s + t).last() == t.last());
        crate::text::lemma_split_on_len(s + t0, sep);
        assert(t[t.len() - 1] != sep);
        let mid = split_on(s + t0, sep);
        assert(mid == init.update(init.len() - 1, init.last() + t0));
        assert(mid.len() == init.len());
        assert(mid.last() == init.last() + t0);
        assert(split_on(s + t, sep) == mid.update(mid.len() - 1, mid.last().push(t.last())));
        assert((init.last() + t0).push(t.last()) =~= init.last() + t);
        assert(split_on(s + t, sep) =~= init.update(init.len() - 1, init.last() + t));
    }
}

/// The directive lines of a sequence of entries, without line ends.
pub open spec fn entry_lines(s: Seq<LayoutEntry>) -> Seq<Seq<char>> {
    s.map_values(|e: LayoutEntry| position_line(e.name@, e.x@, e.y@))
}

/// Names that are identifiers, coordinates that are finite decimal numbers.
pub open spec fn plain_entries(s: Seq<LayoutEntry>) -> bool {
    forall|i: int|
        0 <= i < s.len() ==> is_identifier(#[trigger] s[i].name@) && is_number(s[i].x@)
            && is_number(s[i].y@)
}

proof fn lemma_line_chars(e: LayoutEntry)
    requires
        is_identifier(e.name@),
        is_number(e.x@),
        is_number(e.y@),
    ensures
        forall|i: int|
            0 <= i < position_line(e.name@, e.x@, e.y@).len() ==> #[trigger] position_line(
                e.name@,
                e.x@,
                e.y@,
            )[i] != '\n',
{
    lemma_number_chars(e.x@);
    lemma_number_chars(e.y@);
    let l = position_line(e.name@, e.x@, e.y@);
    let p = position_prefix();
    let n = e.name@;
    let x = e.x@;
    let y = e.y@;
    assert forall|i: int| 0 <= i < l.len() implies #[trigger] l[i] != '\n' by {
        if i < p.len() {
        } else if i < p.len() + n.len() {
            assert(l[i] == n[i - p.len()]);
            assert(is_id_char(n[i - p.len()]));
        } else if i == p.len() + n.len() {
        } else if i < p.len() + n.len() + 1 + x.len() {
            assert(l[i] == x[i - p.len() - n.len() - 1]);
        } else if i == p.len() + n.len() + 1 + x.len() {
        } else {
            assert(l[i] == y[i - p.len() - n.len() - 2 - x.len()]);
        }
    }
}

proof fn lemma_split_encoded(s: Seq<LayoutEntry>)
    requires
        plain_entries(s),
    ensures
        split_on(encode_entries(s), '\n') == entry_lines(s).push(Seq::empty()),
    decreases s.len(),
{
    if s.len() == 0 {
        assert(split_on(encode_entries(s), '\n') =~= entry_lines(s).push(Seq::empty()));
    } else {
        let init = s.drop_last();
        let e = s.last();
        assert(plain_entries(init)) by {
            assert forall|i: int| 0 <= i < init.len() implies is_identifier(#[trigger] init[i].name@)
                && is_number(init[i].x@) && is_number(init[i].y@) by {
                assert(init[i] == s[i]);
            }
        }
        lemma_split_encoded(init);
        let l = position_line(e.name@, e.x@, e.y@);
        lemma_line_chars(e);
        lemma_split_append(encode_entries(init), l, '\n');
        let with_line = encode_entries(init) + l;
        assert((with_line + seq!['\n']).drop_last() =~= with_line);
        assert(encode_entries(s) == with_line + seq!['\n']);
        assert(Seq::<char>::empty() + l =~= l);
        assert(entry_lines(s) =~= entry_lines(init).push(l));
        assert(split_on(encode_entries(s), '\n') =~= entry_lines(s).push(Seq::empty()));
    }
}

proof fn lemma_line_directive(e: LayoutEntry)
    requires
        is_identifier(e.name@),
        is_number(e.x@),
        is_number(e.y@),
    ensures
        trim(position_line(e.name@, e.x@, e.y@)) == position_line(e.name@, e.x@, e.y@),
        position_directive(position_line(e.name@, e.x@, e.y@)) == Some((e.name@, e.x@, e.y@)),
{
    let n = e.name@;
    let x = e.x@;
    let y = e.y@;
    let p = position_prefix();
    let l = position_line(n, x, y);
    lemma_number_chars(x);
    lemma_number_chars(y);
    assert(l[0] == '#');
    assert(trim_start(l) == l);
    assert(l.last() == y.last());
    assert(plain_char(y[y.len() - 1]));
    assert(trim_end(l) == l);
    assert(l.take(p.len() as int) =~= p);
    let rest = l.skip(p.len() as int);
    let coords = x + seq![','] + y;
    assert(rest =~= n + seq![':'] + coords);
    assert forall|i: int| 0 <= i < n.len() implies #[trigger] n[i] != ':' by {
        assert(is_id_char(n[i]));
    }
    lemma_find_after(n, ':', coords);
    assert(rest.take(n.len() as int) =~= n);
    assert(rest.skip(n.len() + 1int) =~= coords);
    assert forall|i: int| 0 <= i < x.len() implies #[trigger] x[i] != ',' by {
        assert(plain_char(x[i]));
    }
    lemma_find_after(x, ',', y);
    assert(coords.take(x.len() as int) =~= x);
    assert(coords.skip(x.len() + 1int) =~= y);
}

proof fn lemma_layout_lines_of_entries(s: Seq<LayoutEntry>)
    requires
        plain_entries(s),
    ensures
        layout_lines(entry_lines(s)) == entries_map(s),
    decreases s.len(),
{
    if s.len() > 0 {
        let init = s.drop_last();
        assert(plain_entries(init)) by {
            assert forall|i: int| 0 <= i < init.len() implies is_identifier(#[trigger] init[i].name@)
                && is_number(init[i].x@) && is_number(init[i].y@) by {
                assert(init[i] == s[i]);
            }
        }
        lemma_layout_lines_of_entries(init);
        assert(entry_lines(s).drop_last() =~= entry_lines(init));
        let last = s[s.len() - 1];
        assert(is_identifier(last.name@) && is_number(last.x@) && is_number(last.y@));
        lemma_line_directive(last);
    }
}

/// Reading back the directives that `encode_layout` writes gives the layout
/// again, for a layout whose names are identifiers and whose coordinates are
/// finite decimal numbers.
pub proof fn lemma_layout_round_trip(l: &Layout)
    requires
        plain_entries(l.entries@),
    ensures
        layout_of(encode_entries(l.entries@)) == l@,
{
    let s = l.entries@;
    lemma_split_encoded(s);
    let ls = entry_lines(s).push(Seq::empty());
    assert(ls.drop_last() =~= entry_lines(s));
    assert(trim(Seq::<char>::empty()) == Seq::<char>::empty());
    lemma_layout_lines_of_entries(s);
}

} // verus!

verus! {

/// A line that is no well-formed position directive (for one, a coordinate
/// that is no number) changes nothing in the layout read from the lines
/// around it.
pub proof fn lemma_malformed_line_skipped(a: Seq<Seq<char>>, m: Seq<char>, b: Seq<Seq<char>>)
    requires
        position_directive(trim(m)) is None,
    ensures
        layout_lines(a + seq![m] + b) == layout_lines(a + b),
    decreases b.len(),
{
    if b.len() == 0 {
        assert((a + seq![m] + b).drop_last() =~= a);
        assert(a + b =~= a);
    } else {
        lemma_malformed_line_skipped(a, m, b.drop_last());
        assert((a + seq![m] + b).drop_last() =~= a + seq![m] + b.drop_last());
        assert((a + b).drop_last() =~= a + b.drop_last());
    }
}

} // verus!

verus! {

/// `a` comes before `b` in the lexicographic order of their characters.
pub open spec fn name_less(a: Seq<char>, b: Seq<char>) -> bool
    decreases a.len(),
{
    if a.len() == 0 {
        b.len() > 0
    } else if b.len() == 0 {
        false
    } else if a[0] != b[0] {
        a[0] < b[0]
    } else {
        name_less(a.drop_first(), b.drop_first())
    }
}

proof fn lemma_name_less_irrefl(a: Seq<char>)
    ensures
        !name_less(a, a),
    decreases a.len(),
{
    if a.len() > 0 {
        lemma_name_less_irrefl(a.drop_first());
    }
}

proof fn lemma_name_less_total(a: Seq<char>, b: Seq<char>)
    ensures
        a != b ==> name_less(a, b) || name_less(b, a),
        !(name_less(a, b) && name_less(b, a)),
        !name_less(a, a),
    decreases a.len(),
{
    lemma_name_less_irrefl(a);
    if a.len() > 0 && b.len() > 0 {
        lemma_name_less_total(a.drop_first(), b.drop_first());
        if a[0] == b[0] && a.drop_first() == b.drop_first() {
            assert(a =~= seq![a[0]] + a.drop_first());
            assert(b =~= seq![b[0]] + b.drop_first());
        }
    } else if a.len() == 0 && b.len() == 0 {
        assert(a =~= b);
    }
}

proof fn lemma_name_less_trans(a: Seq<char>, b: Seq<char>, c: Seq<char>)
    requires
        name_less(a, b),
        name_less(b, c),
    ensures
        name_less(a, c),
    decreases a.len(),
{
    if a.len() > 0 && b.len() > 0 && c.len() > 0 && a[0] == b[0] && b[0] == c[0] {
        lemma_name_less_trans(a.drop_first(), b.drop_first(), c.drop_first());
    }
}

fn name_less_exec(a: &Vec<char>, b: &Vec<char>) -> (r: bool)
    ensures
        r == name_less(a@, b@),
{
    let mut i: usize = 0;
    assert(a@.skip(0) =~= a@);
    assert(b@.skip(0) =~= b@);
    while i < a.len() && i < b.len() && a[i] == b[i]
        invariant
            i <= a.len(),
            i <= b.len(),
            name_less(a@, b@) == name_less(a@.skip(i as int), b@.skip(i as int)),
        decreases a.len() - i,
    {
        assert(a@.skip(i as int).drop_first() =~= a@.skip(i + 1));
        assert(b@.skip(i as int).drop_first() =~= b@.skip(i + 1));
        i += 1;
    }
    if i == a.len() {
        i < b.len()
    } else if i == b.len() {
        false
    } else {
        a[i] < b[i]
    }
}

/// Entries in strictly increasing order of name.
pub open spec fn sorted_by_name(s: Seq<LayoutEntry>) -> bool {
    forall|i: int, j: int| 0 <= i < j < s.len() ==> name_less(s[i].name@, s[j].name@)
}

proof fn lemma_entries_map_insert(s: Seq<LayoutEntry>, k: int, e: LayoutEntry)
    requires
        0 <= k <= s.len(),
        forall|i: int| 0 <= i < s.len() ==> #[trigger] s[i].name@ != e.name@,
    ensures
        entries_map(s.insert(k, e)) == entries_map(s).insert(e.name@, (e.x@, e.y@)),
    decreases s.len(),
{
    let t = s.insert(k, e);
    if k == s.len() {
        assert(t.drop_last() =~= s);
    } else {
        assert(t.drop_last() =~= s.drop_last().insert(k, e));
        lemma_entries_map_insert(s.drop_last(), k, e);
        assert(t.last() == s.last());
        assert(s.last().name@ != e.name@);
        assert(entries_map(t) =~= entries_map(s).insert(e.name@, (e.x@, e.y@)));
    }
}

/// The same layout with its entries in increasing order of name.
pub fn sorted_layout(layout: &Layout) -> (r: Layout)
    requires
        layout.wf(),
    ensures
        r.wf(),
        r@ == layout@,
        sorted_by_name(r.entries@),
{
    let mut out: Vec<LayoutEntry> = Vec::new();
    let ghost s = layout.entries@;
    let mut i: usize = 0;
    assert(s.take(0) =~= Seq::<LayoutEntry>::empty());
    while i < layout.entries.len()
        invariant
            s == layout.entries@,
            layout.wf(),
            i <= s.len(),
            sorted_by_name(out@),
            entries_map(out@) == entries_map(s.take(i as int)),
            forall|j: int| 0 <= j < out@.len() ==> exists|k: int| 0 <= k < i && #[trigger] out@[j].name@ == s[k].name@,
        decreases s.len() - i,
    {
        let e = &layout.entries[i];
        let name = chars_of(e.name.as_str());
        let mut k: usize = 0;
        while k < out.len() && name_less_exec(&chars_of(out[k].name.as_str()), &name)
            invariant
                k <= out@.len(),
                forall|j: int| 0 <= j < k ==> name_less(#[trigger] out@[j].name@, name@),
            decreases out.len() - k,
        {
            k += 1;
        }
        proof {
            assert forall|j: int| 0 <= j < out@.len() implies #[trigger] out@[j].name@ != e.name@ by {
                let kk = choose|kk: int| 0 <= kk < i && out@[j].name@ == s[kk].name@;
            }
            if k < out@.len() {
                lemma_name_less_total(out@[k as int].name@, name@);
            }
        }
        let ghost before = out@;
        let entry = LayoutEntry { name: e.name.clone(), x: e.x.clone(), y: e.y.clone() };
        out.insert(k, entry);
        proof {
            lemma_entries_map_insert(before, k as int, entry);
            assert(s.take(i + 1).drop_last() =~= s.take(i as int));
            assert forall|a: int, b: int| 0 <= a < b < out@.len() implies name_less(out@[a].name@, out@[b].name@) by {
                if b == k {
                } else if a == k {
                    if b > k + 1 {
                        lemma_name_less_trans(name@, before[k as int].name@, before[b - 1].name@);
                    }
                } else if a < k && b > k {
                    assert(name_less(before[a].name@, name@));
                    if b == k + 1 {
                    } else {
                        lemma_name_less_trans(before[a].name@, name@, before[k as int].name@);
                        lemma_name_less_trans(before[a].name@, before[k as int].name@, before[b - 1].name@);
                    }
                }
            }
            assert forall|j: int| 0 <= j < out@.len() implies exists|kk: int| 0 <= kk < i + 1 && #[trigger] out@[j].name@ == s[kk].name@ by {
                if j == k {
                    assert(out@[j].name@ == s[i as int].name@);
                } else if j < k {
                    assert(out@[j] == before[j]);
                } else {
                    assert(out@[j] == before[j - 1]);
                }
            }
        }
        i += 1;
    }
    assert(s.take(s.len() as int) =~= s);
    let r = Layout { entries: out };
    proof {
        assert forall|a: int, b: int| 0 <= a < b < r.entries@.len() implies r.entries@[a].name@ != r.entries@[b].name@ by {
            lemma_name_less_total(r.entries@[a].name@, r.entries@[b].name@);
        }
    }
    r
}

} // verus!

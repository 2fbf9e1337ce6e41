use crate::error::ParseError;
use vstd::prelude::*;
use vstd::string::StrSliceExecFns;

verus! {

/// Who may join a session.
#[derive(Clone, Copy, Debug, PartialEq, Eq, Structural)]
pub enum SessionVisiblity {
    SvPrivate,
    SvFriendsOnly,
    SvInvalid,
}

/// The visibility that a save's visibility byte stands for.
pub open spec fn visibility_of_byte(n: u8) -> Option<SessionVisiblity> {
    if n == 0 {
        Some(SessionVisiblity::SvPrivate)
    } else if n == 1 {
        Some(SessionVisiblity::SvFriendsOnly)
    } else if n == 2 {
        Some(SessionVisiblity::SvInvalid)
    } else {
        None
    }
}

/// The visibility that a world-properties token stands for.
pub open spec fn visibility_of_token(t: Seq<char>) -> Option<SessionVisiblity> {
    if t == "SV_Private"@ {
        Some(SessionVisiblity::SvPrivate)
    } else if t == "SV_FriendsOnly"@ {
        Some(SessionVisiblity::SvFriendsOnly)
    } else if t == "SV_Invalid"@ {
        Some(SessionVisiblity::SvInvalid)
    } else {
        None
    }
}

/// Compares two strings character by character.
fn str_eq(a: &str, b: &str) -> (r: bool)
    ensures
        r == (a@ == b@),
{
    let n = a.unicode_len();
    if n != b.unicode_len() {
        return false;
    }
    let mut i: usize = 0;
    while i < n
        invariant
            n == a@.len(),
            n == b@.len(),
            i <= n,
            forall|k: int| 0 <= k < i ==> a@[k] == b@[k],
        decreases n - i,
    {
        if a.get_char(i) != b.get_char(i) {
            return false;
        }
        i += 1;
    }
    assert(a@ =~= b@);
    true
}

impl SessionVisiblity {
    /// Decodes the visibility byte of a save header.
    pub fn from_u8(n: u8) -> (r: Result<SessionVisiblity, ParseError>)
        ensures
            match visibility_of_byte(n) {
                Some(v) => r == Ok::<SessionVisiblity, ParseError>(v),
                None => r == Err::<SessionVisiblity, ParseError>(ParseError::UnknownVisibility),
            },
    {
        match n {
            0 => Ok(SessionVisiblity::SvPrivate),
            1 => Ok(SessionVisiblity::SvFriendsOnly),
            2 => Ok(SessionVisiblity::SvInvalid),
            _ => Err(ParseError::UnknownVisibility),
        }
    }

    /// Decodes the visibility token of the world properties.
    pub fn parse(s: &str) -> (r: Result<SessionVisiblity, ParseError>)
        ensures
            match visibility_of_token(s@) {
                Some(v) => r == Ok::<SessionVisiblity, ParseError>(v),
                None => r == Err::<SessionVisiblity, ParseError>(ParseError::UnknownVisibility),
            },
    {
        if str_eq(s, "SV_Private") {
            Ok(SessionVisiblity::SvPrivate)
        } else if str_eq(s, "SV_FriendsOnly") {
            Ok(SessionVisiblity::SvFriendsOnly)
        } else if str_eq(s, "SV_Invalid") {
            Ok(SessionVisiblity::SvInvalid)
        } else {
            Err(ParseError::UnknownVisibility)
        }
    }
}

impl Default for SessionVisiblity {
    fn default() -> (r: SessionVisiblity)
        ensures
            r == SessionVisiblity::SvPrivate,
    {
        SessionVisiblity::SvPrivate
    }
}

/// `s` cut at every `sep`, as `str::split` does: one more piece than there are separators.
pub open spec fn split_on(s: Seq<char>, sep: char) -> Seq<Seq<char>>
    decreases s.len(),
{
    if s.len() == 0 {
        seq![Seq::<char>::empty()]
    } else {
        let init = split_on(s.drop_last(), sep);
        if s.last() == sep {
            init.push(Seq::<char>::empty())
        } else {
            init.update(init.len() - 1, init.last().push(s.last()))
        }
    }
}

/// The position of the first `c` in `s`, or `s.len()` where there is none.
pub open spec fn first_index_of(s: Seq<char>, c: char) -> int
    decreases s.len(),
{
    if s.len() == 0 {
        0
    } else if s[0] == c {
        0
    } else {
        1 + first_index_of(s.drop_first(), c)
    }
}

/// True of a non-empty segment without `=`.
pub open spec fn is_malformed(seg: Seq<char>) -> bool {
    seg.len() > 0 && first_index_of(seg, '=') == seg.len()
}

/// True of a segment that holds a `key=value` pair.
pub open spec fn is_property(seg: Seq<char>) -> bool {
    first_index_of(seg, '=') < seg.len()
}

/// What stands before the first `=` of a segment.
pub open spec fn property_key(seg: Seq<char>) -> Seq<char> {
    seg.take(first_index_of(seg, '='))
}

/// What stands after the first `=` of a segment.
pub open spec fn property_value(seg: Seq<char>) -> Seq<char> {
    seg.skip(first_index_of(seg, '=') + 1)
}

/// The segments of a world-properties text: the pieces after its first `?`.
pub open spec fn property_segments(s: Seq<char>) -> Seq<Seq<char>> {
    split_on(s, '?').skip(1)
}

/// The value of `key` among `segs`; where the key comes more than once, the last one counts.
pub open spec fn lookup_property(segs: Seq<Seq<char>>, key: Seq<char>) -> Option<Seq<char>>
    decreases segs.len(),
{
    if segs.len() == 0 {
        None
    } else if is_property(segs.last()) && property_key(segs.last()) == key {
        Some(property_value(segs.last()))
    } else {
        lookup_property(segs.drop_last(), key)
    }
}

/// The world properties of a save.
pub struct WorldProperties {
    pub start_loc: String,
    pub session_name: String,
    pub visibility: SessionVisiblity,
}

/// `WorldProperties` with its strings as character sequences.
pub struct WorldPropertiesModel {
    pub start_loc: Seq<char>,
    pub session_name: Seq<char>,
    pub visibility: SessionVisiblity,
}

impl View for WorldProperties {
    type V = WorldPropertiesModel;

    open spec fn view(&self) -> WorldPropertiesModel {
        WorldPropertiesModel {
            start_loc: self.start_loc@,
            session_name: self.session_name@,
            visibility: self.visibility,
        }
    }
}

/// The world properties that a text of the form `?k1=v1?k2=v2...` holds: every non-empty
/// segment must hold an `=`, and `startloc`, `sessionName` and `Visibility` must be among the
/// keys; other keys do not matter.
pub open spec fn world_properties_of(s: Seq<char>) -> Result<WorldPropertiesModel, ParseError> {
    let segs = property_segments(s);
    if exists|i: int| 0 <= i < segs.len() && is_malformed(#[trigger] segs[i]) {
        Err(ParseError::MalformedProperty)
    } else {
        match (
            lookup_property(segs, "startloc"@),
            lookup_property(segs, "sessionName"@),
            lookup_property(segs, "Visibility"@),
        ) {
            (Some(start_loc), Some(session_name), Some(token)) => match visibility_of_token(token) {
                Some(visibility) => Ok(WorldPropertiesModel { start_loc, session_name, visibility }),
                None => Err(ParseError::UnknownVisibility),
            },
            _ => Err(ParseError::MissingProperty),
        }
    }
}

proof fn lemma_split_on_nonempty(s: Seq<char>, sep: char)
    ensures
        split_on(s, sep).len() >= 1,
    decreases s.len(),
{
    if s.len() > 0 {
        lemma_split_on_nonempty(s.drop_last(), sep);
    }
}

proof fn lemma_first_index_of(s: Seq<char>, c: char, j: int)
    requires
        0 <= j <= s.len(),
        forall|k: int| 0 <= k < j ==> s[k] != c,
        j == s.len() || s[j] == c,
    ensures
        first_index_of(s, c) == j,
    decreases s.len(),
{
    if s.len() > 0 && j > 0 {
        lemma_first_index_of(s.drop_first(), c, j - 1);
    }
}

impl Default for WorldProperties {
    fn default() -> (r: WorldProperties)
        ensures
            r@ == (WorldPropertiesModel {
                start_loc: Seq::empty(),
                session_name: Seq::empty(),
                visibility: SessionVisiblity::SvPrivate,
            }),
    {
        WorldProperties {
            start_loc: String::new(),
            session_name: String::new(),
            visibility: SessionVisiblity::default(),
        }
    }
}

/// The characters of `s`.
fn chars_of(s: &str) -> (r: Vec<char>)
    ensures
        r@ == s@,
{
    broadcast use vstd::string::axiom_spec_iter;

    let mut out: Vec<char> = Vec::new();
    for c in it: s.chars()
        invariant
            out@ == it.seq().take(it.index() as int),
    {
        out.push(c);
    }
    out
}

/// The position of the first `c` in `text[from..to]`, or `to` where there is none.
fn find_char(text: &Vec<char>, from: usize, to: usize, c: char) -> (r: usize)
    requires
        from <= to <= text@.len(),
    ensures
        from <= r <= to,
        first_index_of(text@.subrange(from as int, to as int), c) == r - from,
{
    let mut i = from;
    while i < to && text[i] != c
        invariant
            from <= i <= to,
            to <= text@.len(),
            forall|k: int| from <= k < i ==> text@[k] != c,
        decreases to - i,
    {
        i += 1;
    }
    proof {
        lemma_first_index_of(text@.subrange(from as int, to as int), c, i - from);
    }
    i
}

/// Where, in the text being decoded, the value of each required key was last seen.
struct PropertySlots {
    start_loc: Option<(usize, usize)>,
    session_name: Option<(usize, usize)>,
    visibility: Option<(usize, usize)>,
}

/// A slot is empty where the key has no value, and otherwise spans the key's value.
spec fn slot_holds(text: Seq<char>, slot: Option<(usize, usize)>, found: Option<Seq<char>>) -> bool {
    match slot {
        None => found is None,
        Some((a, b)) => a <= b <= text.len() && found == Some(text.subrange(a as int, b as int)),
    }
}

spec fn slots_hold(text: Seq<char>, slots: PropertySlots, segs: Seq<Seq<char>>) -> bool {
    &&& slot_holds(text, slots.start_loc, lookup_property(segs, "startloc"@))
    &&& slot_holds(text, slots.session_name, lookup_property(segs, "sessionName"@))
    &&& slot_holds(text, slots.visibility, lookup_property(segs, "Visibility"@))
}

/// The characters of the three required keys.
struct RequiredKeys {
    start_loc: Vec<char>,
    session_name: Vec<char>,
    visibility: Vec<char>,
}

spec fn keys_hold(keys: &RequiredKeys) -> bool {
    &&& keys.start_loc@ == "startloc"@
    &&& keys.session_name@ == "sessionName"@
    &&& keys.visibility@ == "Visibility"@
}

fn required_keys() -> (r: RequiredKeys)
    ensures
        keys_hold(&r),
{
    RequiredKeys {
        start_loc: chars_of("startloc"),
        session_name: chars_of("sessionName"),
        visibility: chars_of("Visibility"),
    }
}

/// Whether `text[from..to]` is `key`.
fn range_equals(text: &Vec<char>, from: usize, to: usize, key: &Vec<char>) -> (r: bool)
    requires
        from <= to <= text@.len(),
    ensures
        r == (text@.subrange(from as int, to as int) == key@),
{
    if to - from != key.len() {
        return false;
    }
    let mut i: usize = 0;
    while i < key.len()
        invariant
            from <= to <= text@.len(),
            to - from == key@.len(),
            i <= key@.len(),
            forall|k: int| 0 <= k < i ==> text@[from + k] == key@[k],
        decreases key@.len() - i,
    {
        if text[from + i] != key[i] {
            return false;
        }
        i += 1;
    }
    assert(text@.subrange(from as int, to as int) =~= key@);
    true
}

/// Takes in the segment `s[from..to]`; false when it is malformed.
fn take_segment(
    s: &str,
    text: &Vec<char>,
    keys: &RequiredKeys,
    from: usize,
    to: usize,
    slots: &mut PropertySlots,
    Ghost(segs): Ghost<Seq<Seq<char>>>,
) -> (r: bool)
    requires
        text@ == s@,
        keys_hold(keys),
        from <= to <= text@.len(),
        slots_hold(s@, *old(slots), segs),
    ensures
        r == !is_malformed(s@.subrange(from as int, to as int)),
        r ==> slots_hold(s@, *final(slots), segs.push(s@.subrange(from as int, to as int))),
{
    let ghost seg = s@.subrange(from as int, to as int);
    let eq = find_char(text, from, to, '=');
    proof {
        assert(segs.push(seg).drop_last() =~= segs);
        assert(segs.push(seg).last() == seg);
    }
    if eq == to {
        return from == to;
    }
    proof {
        reveal_strlit("startloc");
        reveal_strlit("sessionName");
        reveal_strlit("Visibility");
        assert(property_key(seg) =~= s@.subrange(from as int, eq as int));
        assert(property_value(seg) =~= s@.subrange(eq + 1, to as int));
    }
    if range_equals(text, from, eq, &keys.start_loc) {
        slots.start_loc = Some((eq + 1, to));
    } else if range_equals(text, from, eq, &keys.session_name) {
        slots.session_name = Some((eq + 1, to));
    } else if range_equals(text, from, eq, &keys.visibility) {
        slots.visibility = Some((eq + 1, to));
    }
    true
}

impl WorldProperties {
    /// Decodes a world-properties text (see `world_properties_of`).
    pub fn new(s: &str) -> (r: Result<WorldProperties, ParseError>)
        ensures
            match world_properties_of(s@) {
                Ok(m) => r is Ok && r->Ok_0@ == m,
                Err(e) => r is Err && r->Err_0 == e,
            },
    {
        let text = chars_of(s);
        let keys = required_keys();
        let n = text.len();
        let mut slots = PropertySlots { start_loc: None, session_name: None, visibility: None };
        let mut seg_start: usize = 0;
        let mut seen_sep = false;
        let mut malformed = false;
        let ghost mut done: Seq<Seq<char>> = seq![];
        let mut i: usize = 0;
        proof {
            assert(split_on(Seq::<char>::empty(), '?') == seq![Seq::<char>::empty()]);
            assert(s@.take(0) =~= Seq::<char>::empty());
            assert(done.push(s@.subrange(0, 0)) =~= seq![Seq::<char>::empty()]);
        }
        while i < n
            invariant
                text@ == s@,
                keys_hold(&keys),
                n == s@.len(),
                seg_start <= i <= n,
                split_on(s@.take(i as int), '?') == done.push(s@.subrange(seg_start as int, i as int)),
                seen_sep == (done.len() > 0),
                !seen_sep ==> slots.start_loc is None && slots.session_name is None
                    && slots.visibility is None,
                seen_sep && !malformed ==> slots_hold(s@, slots, done.skip(1)),
                malformed == exists|k: int| 1 <= k < done.len() && is_malformed(#[trigger] done[k]),
            decreases n - i,
        {
            let ghost cur = s@.subrange(seg_start as int, i as int);
            let ghost was_malformed = malformed;
            proof {
                assert(s@.take(i + 1).drop_last() =~= s@.take(i as int));
                assert(s@.take(i + 1).last() == s@[i as int]);
            }
            if text[i] == '?' {
                if seen_sep && !malformed {
                    if !take_segment(s, &text, &keys, seg_start, i, &mut slots, Ghost(done.skip(1))) {
                        malformed = true;
                    }
                }
                proof {
                    if seen_sep {
                        assert(done.push(cur).skip(1) =~= done.skip(1).push(cur));
                    } else {
                        assert(done.push(cur).skip(1) =~= Seq::<Seq<char>>::empty());
                    }
                    let d2 = done.push(cur);
                    if was_malformed {
                        let k = choose|k: int| 1 <= k < done.len() && is_malformed(#[trigger] done[k]);
                        assert(d2[k] == done[k]);
                    } else if malformed {
                        assert(is_malformed(d2[done.len() as int]));
                    } else {
                        assert forall|k: int| 1 <= k < d2.len() implies !is_malformed(#[trigger] d2[k]) by {
                            if k < done.len() {
                                assert(d2[k] == done[k]);
                            }
                        }
                    }
                    done = d2;
                    assert(s@.subrange(i + 1, i + 1) =~= Seq::<char>::empty());
                }
                seen_sep = true;
                seg_start = i + 1;
            } else {
                proof {
                    assert(s@.subrange(seg_start as int, i + 1) =~= cur.push(s@[i as int]));
                    assert(done.push(cur).update(done.len() as int, cur.push(s@[i as int])) =~= done.push(
                        s@.subrange(seg_start as int, i + 1),
                    ));
                }
            }
            i += 1;
        }
        let ghost cur = s@.subrange(seg_start as int, n as int);
        if seen_sep && !malformed {
            if !take_segment(s, &text, &keys, seg_start, n, &mut slots, Ghost(done.skip(1))) {
                malformed = true;
            }
        }
        proof {
            assert(s@.take(n as int) =~= s@);
            let d2 = done.push(cur);
            assert(property_segments(s@) == d2.skip(1));
            if seen_sep {
                assert(d2.skip(1) =~= done.skip(1).push(cur));
            } else {
                assert(d2.skip(1) =~= Seq::<Seq<char>>::empty());
            }
            let segs = d2.skip(1);
            if malformed {
                if exists|k: int| 1 <= k < done.len() && is_malformed(#[trigger] done[k]) {
                    let k = choose|k: int| 1 <= k < done.len() && is_malformed(#[trigger] done[k]);
                    assert(segs[k - 1] == done[k]);
                } else {
                    assert(segs[segs.len() - 1] == cur);
                }
            } else {
                assert forall|j: int| 0 <= j < segs.len() implies !is_malformed(#[trigger] segs[j]) by {
                    if j + 1 < done.len() {
                        assert(segs[j] == done[j + 1]);
                    } else {
                        assert(segs[j] == cur);
                    }
                }
            }
        }
        if malformed {
            return Err(ParseError::MalformedProperty);
        }
        match (slots.start_loc, slots.session_name, slots.visibility) {
            (Some((a1, b1)), Some((a2, b2)), Some((a3, b3))) => {
                let visibility = SessionVisiblity::parse(s.substring_char(a3, b3))?;
                Ok(
                    WorldProperties {
                        start_loc: s.substring_char(a1, b1).to_owned(),
                        session_name: s.substring_char(a2, b2).to_owned(),
                        visibility,
                    },
                )
            },
            _ => Err(ParseError::MissingProperty),
        }
    }
}

proof fn lemma_split_on_append(a: Seq<char>, b: Seq<char>, sep: char)
    requires
        forall|k: int| 0 <= k < b.len() ==> b[k] != sep,
    ensures
        split_on(a + seq![sep] + b, sep) == split_on(a, sep).push(b),
    decreases b.len(),
{
    let t = a + seq![sep] + b;
    if b.len() == 0 {
        assert(t.drop_last() =~= a);
        assert(t.last() == sep);
        assert(t =~= a + seq![sep]);
        assert(b =~= Seq::<char>::empty());
    } else {
        lemma_split_on_append(a, b.drop_last(), sep);
        assert(t.drop_last() =~= a + seq![sep] + b.drop_last());
        assert(t.last() == b.last());
        assert(b.drop_last().push(b.last()) =~= b);
        assert(split_on(a, sep).push(b.drop_last()).update(
            split_on(a, sep).len() as int,
            b.drop_last().push(b.last()),
        ) =~= split_on(a, sep).push(b));
    }
}

/// A text that decodes names the three required keys, and the decoded values are theirs.
pub proof fn lemma_accepted_properties_have_required_keys(s: Seq<char>)
    requires
        world_properties_of(s) is Ok,
    ensures
        lookup_property(property_segments(s), "startloc"@) == Some(world_properties_of(s)->Ok_0.start_loc),
        lookup_property(property_segments(s), "sessionName"@) == Some(
            world_properties_of(s)->Ok_0.session_name,
        ),
        lookup_property(property_segments(s), "Visibility"@) is Some,
        visibility_of_token(lookup_property(property_segments(s), "Visibility"@)->Some_0) == Some(
            world_properties_of(s)->Ok_0.visibility,
        ),
{
}

/// Appending a property under any other key leaves the outcome of decoding unchanged.
pub proof fn lemma_extra_property_ignored(s: Seq<char>, key: Seq<char>, value: Seq<char>)
    requires
        key != "startloc"@,
        key != "sessionName"@,
        key != "Visibility"@,
        forall|k: int| 0 <= k < key.len() ==> key[k] != '?' && key[k] != '=',
        forall|k: int| 0 <= k < value.len() ==> value[k] != '?',
    ensures
        world_properties_of(s + seq!['?'] + key + seq!['='] + value) == world_properties_of(s),
{
    let seg = key + seq!['='] + value;
    let t = s + seq!['?'] + seg;
    assert(t =~= s + seq!['?'] + key + seq!['='] + value);
    assert forall|k: int| 0 <= k < seg.len() implies seg[k] != '?' by {
        if k < key.len() {
        } else if k == key.len() {
        } else {
            assert(seg[k] == value[k - key.len() - 1]);
        }
    }
    lemma_split_on_append(s, seg, '?');
    lemma_split_on_nonempty(s, '?');
    let segs = property_segments(s);
    let segs2 = property_segments(t);
    assert(segs2 =~= segs.push(seg));
    lemma_first_index_of(seg, '=', key.len() as int);
    assert(property_key(seg) =~= key);
    assert(!is_malformed(seg));
    assert(segs2.drop_last() =~= segs);
    assert((exists|i: int| 0 <= i < segs2.len() && is_malformed(#[trigger] segs2[i])) == (exists|
        i: int,
    |
        0 <= i < segs.len() && is_malformed(#[trigger] segs[i]))) by {
        if exists|i: int| 0 <= i < segs2.len() && is_malformed(#[trigger] segs2[i]) {
            let i = choose|i: int| 0 <= i < segs2.len() && is_malformed(#[trigger] segs2[i]);
            assert(segs[i] == segs2[i]);
        }
        if exists|i: int| 0 <= i < segs.len() && is_malformed(#[trigger] segs[i]) {
            let i = choose|i: int| 0 <= i < segs.len() && is_malformed(#[trigger] segs[i]);
            assert(segs[i] == segs2[i]);
        }
    }
}

} // verus!

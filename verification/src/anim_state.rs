//! Animation states: small combinations of interaction keys, held in one
//! canonical order so that equal combinations are equal values.

use vstd::prelude::*;
use crate::error::ParseError;
use crate::text::{chars_of, spells};

verus! {

/// One component of an [`AnimState`].
#[derive(Debug, Copy, Clone, PartialEq, Eq, Hash, PartialOrd, Ord, Structural)]
pub enum AnimStateKey {
    /// The mouse is hovering over the widget
    Hover,
    /// The mouse is pressed on a widget
    Pressed,
    /// The widget is disabled
    Disabled,
    /// The widget has no special animation state.
    Normal,
    /// The widget is activated.
    Active,
}

impl AnimStateKey {
    /// The place of the key in the fixed key order.
    pub open spec fn rank(self) -> int {
        match self {
            AnimStateKey::Hover => 0,
            AnimStateKey::Pressed => 1,
            AnimStateKey::Disabled => 2,
            AnimStateKey::Normal => 3,
            AnimStateKey::Active => 4,
        }
    }

    /// The key's name in the textual form of a state.
    pub open spec fn name(self) -> Seq<char> {
        match self {
            AnimStateKey::Hover => "Hover"@,
            AnimStateKey::Pressed => "Pressed"@,
            AnimStateKey::Disabled => "Disabled"@,
            AnimStateKey::Normal => "Normal"@,
            AnimStateKey::Active => "Active"@,
        }
    }

    fn order(self) -> (n: u8)
        ensures
            n == self.rank(),
    {
        match self {
            AnimStateKey::Hover => 0,
            AnimStateKey::Pressed => 1,
            AnimStateKey::Disabled => 2,
            AnimStateKey::Normal => 3,
            AnimStateKey::Active => 4,
        }
    }
}

/// The number of key slots of a state.
pub const SLOTS: usize = 4;

/// How often `key` stands in the four slots `keys`.
pub open spec fn occurrences(keys: Seq<AnimStateKey>, key: AnimStateKey) -> int {
    (if keys[0] == key { 1int } else { 0 }) + (if keys[1] == key { 1int } else { 0 })
        + (if keys[2] == key { 1int } else { 0 }) + (if keys[3] == key { 1int } else { 0 })
}

/// Four slots in ascending key order.
pub open spec fn is_sorted(keys: Seq<AnimStateKey>) -> bool {
    &&& keys.len() == SLOTS
    &&& keys[0].rank() <= keys[1].rank() <= keys[2].rank() <= keys[3].rank()
}

/// `keys` holds the same keys as `raw`, each as often, in ascending key order.
pub open spec fn is_canonical_of(keys: Seq<AnimStateKey>, raw: Seq<AnimStateKey>) -> bool {
    &&& is_sorted(keys)
    &&& forall|k: AnimStateKey| occurrences(keys, k) == occurrences(raw, k)
}

/// Up to four keys in four slots, the unused ones filled with `Normal`.
pub open spec fn padded(keys: Seq<AnimStateKey>) -> Seq<AnimStateKey> {
    Seq::new(SLOTS as nat, |i: int| if i < keys.len() { keys[i] } else { AnimStateKey::Normal })
}

/// `keys` with its first `Normal` slot, if it has one, given to `key`.
pub open spec fn with_added(keys: Seq<AnimStateKey>, key: AnimStateKey) -> Seq<AnimStateKey> {
    if keys[0] == AnimStateKey::Normal {
        keys.update(0, key)
    } else if keys[1] == AnimStateKey::Normal {
        keys.update(1, key)
    } else if keys[2] == AnimStateKey::Normal {
        keys.update(2, key)
    } else if keys[3] == AnimStateKey::Normal {
        keys.update(3, key)
    } else {
        keys
    }
}

/// There is only one canonical arrangement of given keys.
pub proof fn canonical_is_unique(a: Seq<AnimStateKey>, b: Seq<AnimStateKey>, raw: Seq<AnimStateKey>)
    requires
        is_canonical_of(a, raw),
        is_canonical_of(b, raw),
    ensures
        a == b,
{
    assert(occurrences(a, AnimStateKey::Hover) == occurrences(b, AnimStateKey::Hover));
    assert(occurrences(a, AnimStateKey::Pressed) == occurrences(b, AnimStateKey::Pressed));
    assert(occurrences(a, AnimStateKey::Disabled) == occurrences(b, AnimStateKey::Disabled));
    assert(occurrences(a, AnimStateKey::Normal) == occurrences(b, AnimStateKey::Normal));
    assert(occurrences(a, AnimStateKey::Active) == occurrences(b, AnimStateKey::Active));
    assert(a =~= b);
}

/// Puts the keys of slots `i` and `j` in ascending order.
fn order_pair(keys: &mut [AnimStateKey; 4], i: usize, j: usize)
    requires
        i < j < SLOTS,
    ensures
        final(keys)@[i as int].rank() <= final(keys)@[j as int].rank(),
        final(keys)@ == old(keys)@ || final(keys)@ == old(keys)@.update(i as int, old(keys)@[j as int]).update(
            j as int,
            old(keys)@[i as int],
        ),
{
    let a = keys[i];
    let b = keys[j];
    if a.order() > b.order() {
        keys[i] = b;
        keys[j] = a;
    }
}

/// Sorts four slots by key order.
fn sort_keys(keys: &mut [AnimStateKey; 4])
    ensures
        is_canonical_of(final(keys)@, old(keys)@),
{
    order_pair(keys, 0, 1);
    order_pair(keys, 2, 3);
    order_pair(keys, 0, 2);
    order_pair(keys, 1, 3);
    order_pair(keys, 1, 2);
}

/// The character that joins the keys of a state in text.
pub open spec fn joiner() -> char {
    '+'
}

/// Whitespace, as Unicode's `White_Space` property has it.
pub open spec fn is_space(c: char) -> bool {
    let u: u32 = c as u32;
    ||| 0x09 <= u <= 0x0d
    ||| u == 0x20
    ||| u == 0x85
    ||| u == 0xa0
    ||| u == 0x1680
    ||| 0x2000 <= u <= 0x200a
    ||| u == 0x2028
    ||| u == 0x2029
    ||| u == 0x202f
    ||| u == 0x205f
    ||| u == 0x3000
}

/// `s` without the whitespace at its two ends.
pub open spec fn trimmed(s: Seq<char>) -> Seq<char>
    decreases s.len(),
{
    if s.len() > 0 && is_space(s[0]) {
        trimmed(s.drop_first())
    } else if s.len() > 0 && is_space(s.last()) {
        trimmed(s.drop_last())
    } else {
        s
    }
}

/// The pieces of `s` between its `+` signs: one more than there are signs.
pub open spec fn tokens(s: Seq<char>) -> Seq<Seq<char>>
    decreases s.len(),
{
    if s.len() == 0 {
        seq![Seq::<char>::empty()]
    } else {
        let before = tokens(s.drop_last());
        if s.last() == joiner() {
            before.push(Seq::<char>::empty())
        } else {
            before.update(before.len() - 1, before.last().push(s.last()))
        }
    }
}

/// The key that a token names, whitespace around it ignored.
pub open spec fn key_named(token: Seq<char>) -> Option<AnimStateKey> {
    let word = trimmed(token);
    if word == AnimStateKey::Normal.name() {
        Some(AnimStateKey::Normal)
    } else if word == AnimStateKey::Hover.name() {
        Some(AnimStateKey::Hover)
    } else if word == AnimStateKey::Pressed.name() {
        Some(AnimStateKey::Pressed)
    } else if word == AnimStateKey::Disabled.name() {
        Some(AnimStateKey::Disabled)
    } else if word == AnimStateKey::Active.name() {
        Some(AnimStateKey::Active)
    } else {
        None
    }
}

/// What one more token does to the keys accepted so far: the keys with the
/// token's key behind them, or the reason why the token is refused.
pub open spec fn accept(keys: Seq<AnimStateKey>, token: Seq<char>) -> Result<
    Seq<AnimStateKey>,
    ParseError,
> {
    if keys.len() >= SLOTS {
        Err(ParseError::TooManyKeys)
    } else if keys.len() > 0 && keys[0] == AnimStateKey::Normal {
        Err(ParseError::NormalNotAlone)
    } else {
        match key_named(token) {
            None => Err(ParseError::UnknownKey(keys.len() as usize)),
            Some(AnimStateKey::Normal) => if keys.len() > 0 {
                Err(ParseError::NormalNotAlone)
            } else {
                Ok(keys.push(AnimStateKey::Normal))
            },
            Some(key) => if keys.contains(key) {
                Err(ParseError::DuplicateKey(key))
            } else {
                Ok(keys.push(key))
            },
        }
    }
}

/// The keys that a run of tokens names, in the order of the tokens, or what
/// is wrong with the first token that is refused.
pub open spec fn keys_of_tokens(tokens: Seq<Seq<char>>) -> Result<Seq<AnimStateKey>, ParseError>
    decreases tokens.len(),
{
    if tokens.len() == 0 {
        Ok(Seq::<AnimStateKey>::empty())
    } else {
        match keys_of_tokens(tokens.drop_last()) {
            Err(e) => Err(e),
            Ok(keys) => accept(keys, tokens.last()),
        }
    }
}

/// The keys that the text `s` names, or why it names no state.
pub open spec fn parsed_keys(s: Seq<char>) -> Result<Seq<AnimStateKey>, ParseError> {
    keys_of_tokens(tokens(s))
}

/// The text of a state: its four slots joined by `+`, a `Normal` slot left
/// empty.
pub open spec fn text_of(keys: Seq<AnimStateKey>) -> Seq<char> {
    slot_text(keys[0]) + seq![joiner()] + slot_text(keys[1]) + seq![joiner()] + slot_text(keys[2])
        + seq![joiner()] + slot_text(keys[3])
}

/// The text of one slot: the key's name, or nothing for `Normal`.
pub open spec fn slot_text(key: AnimStateKey) -> Seq<char> {
    if key == AnimStateKey::Normal {
        Seq::<char>::empty()
    } else {
        key.name()
    }
}

fn is_whitespace(c: char) -> (yes: bool)
    ensures
        yes == is_space(c),
{
    let u: u32 = c as u32;
    (0x09 <= u && u <= 0x0d) || u == 0x20 || u == 0x85 || u == 0xa0 || u == 0x1680 || (0x2000 <= u
        && u <= 0x200a) || u == 0x2028 || u == 0x2029 || u == 0x202f || u == 0x205f || u == 0x3000
}

/// Reads the key that `chars[lo..hi]` names.
fn read_key(chars: &Vec<char>, lo: usize, hi: usize) -> (key: Option<AnimStateKey>)
    requires
        lo <= hi <= chars.len(),
    ensures
        key == key_named(chars@.subrange(lo as int, hi as int)),
{
    let mut from: usize = lo;
    let mut to: usize = hi;
    while from < to && is_whitespace(chars[from])
        invariant
            lo <= from <= to <= hi <= chars.len(),
            to == hi,
            trimmed(chars@.subrange(from as int, to as int)) == trimmed(
                chars@.subrange(lo as int, hi as int),
            ),
        decreases to - from,
    {
        assert(chars@.subrange(from as int, to as int).drop_first() =~= chars@.subrange(
            from + 1,
            to as int,
        ));
        from += 1;
    }
    while from < to && is_whitespace(chars[to - 1])
        invariant
            lo <= from <= to <= hi <= chars.len(),
            from < to ==> !is_space(chars@[from as int]),
            trimmed(chars@.subrange(from as int, to as int)) == trimmed(
                chars@.subrange(lo as int, hi as int),
            ),
        decreases to - from,
    {
        assert(chars@.subrange(from as int, to as int).drop_last() =~= chars@.subrange(
            from as int,
            to - 1,
        ));
        to -= 1;
    }
    assert(trimmed(chars@.subrange(from as int, to as int)) == chars@.subrange(
        from as int,
        to as int,
    ));
    if spells(chars, from, to, "Normal") {
        Some(AnimStateKey::Normal)
    } else if spells(chars, from, to, "Hover") {
        Some(AnimStateKey::Hover)
    } else if spells(chars, from, to, "Pressed") {
        Some(AnimStateKey::Pressed)
    } else if spells(chars, from, to, "Disabled") {
        Some(AnimStateKey::Disabled)
    } else if spells(chars, from, to, "Active") {
        Some(AnimStateKey::Active)
    } else {
        None
    }
}

/// Stores `key` in slot `max_index`, unless one of the slots before it
/// holds the same key.
fn add_if_not_already_present(keys: &mut [AnimStateKey; 4], max_index: usize, key: AnimStateKey) -> (r:
    Result<(), ParseError>)
    requires
        max_index < SLOTS,
    ensures
        match r {
            Ok(()) => !old(keys)@.take(max_index as int).contains(key) && final(keys)@ == old(
                keys,
            )@.update(max_index as int, key),
            Err(e) => old(keys)@.take(max_index as int).contains(key) && e == ParseError::DuplicateKey(
                key,
            ) && final(keys)@ == old(keys)@,
        },
{
    let mut i: usize = 0;
    while i < max_index
        invariant
            i <= max_index < SLOTS,
            keys@ == old(keys)@,
            forall|j: int| 0 <= j < i ==> keys@[j] != key,
        decreases max_index - i,
    {
        if keys[i] == key {
            assert(keys@.take(max_index as int)[i as int] == key);
            return Err(ParseError::DuplicateKey(key));
        }
        i += 1;
    }
    keys[max_index] = key;
    Ok(())
}

/// Takes the token `chars[lo..hi]` as the next one after `count` accepted
/// keys, which stand in the first slots of `keys`.
fn take_token(keys: &mut [AnimStateKey; 4], count: usize, chars: &Vec<char>, lo: usize, hi: usize) -> (r:
    Result<(), ParseError>)
    requires
        count <= SLOTS,
        lo <= hi <= chars.len(),
        old(keys)@ == padded(old(keys)@.take(count as int)),
    ensures
        match r {
            Ok(()) => {
                &&& count < SLOTS
                &&& accept(old(keys)@.take(count as int), chars@.subrange(lo as int, hi as int)) == Ok::<
                    Seq<AnimStateKey>,
                    ParseError,
                >(final(keys)@.take(count + 1))
                &&& final(keys)@ == padded(final(keys)@.take(count + 1))
            },
            Err(e) => accept(old(keys)@.take(count as int), chars@.subrange(lo as int, hi as int))
                == Err::<Seq<AnimStateKey>, ParseError>(e),
        },
{
    if count >= 4 {
        return Err(ParseError::TooManyKeys);
    }
    if count > 0 && keys[0] == AnimStateKey::Normal {
        return Err(ParseError::NormalNotAlone);
    }
    let ghost before = keys@.take(count as int);
    match read_key(chars, lo, hi) {
        None => Err(ParseError::UnknownKey(count)),
        Some(AnimStateKey::Normal) => {
            if count != 0 {
                Err(ParseError::NormalNotAlone)
            } else {
                assert(keys@.take(count + 1) =~= before.push(AnimStateKey::Normal));
                Ok(())
            }
        },
        Some(key) => {
            match add_if_not_already_present(keys, count, key) {
                Err(e) => Err(e),
                Ok(()) => {
                    assert(keys@.take(count + 1) =~= before.push(key));
                    assert(keys@ =~= padded(keys@.take(count + 1)));
                    Ok(())
                },
            }
        },
    }
}

/// The keys that a text names, where it names a state: one for each token,
/// at most four, no key twice, and `Normal` only as the single key.
pub proof fn accepted_keys(tokens: Seq<Seq<char>>)
    requires
        keys_of_tokens(tokens) is Ok,
    ensures
        ({
            let keys = keys_of_tokens(tokens)->Ok_0;
            &&& keys.len() == tokens.len() <= SLOTS
            &&& forall|i: int, j: int| 0 <= i < j < keys.len() ==> keys[i] != keys[j]
            &&& forall|i: int|
                0 <= i < keys.len() && keys[i] == AnimStateKey::Normal ==> keys.len() == 1
        }),
    decreases tokens.len(),
{
    if tokens.len() > 0 {
        accepted_keys(tokens.drop_last());
        let before = keys_of_tokens(tokens.drop_last())->Ok_0;
        let keys = keys_of_tokens(tokens)->Ok_0;
        let key = key_named(tokens.last())->0;
        assert(keys == before.push(key));
        assert forall|i: int, j: int| 0 <= i < j < keys.len() implies keys[i] != keys[j] by {
            if j == before.len() && keys[i] == keys[j] {
                assert(before[i] == key);
            }
        }
    }
}

/// A refusal among the first tokens is the refusal of the whole run.
proof fn refusal_stays(first: Seq<Seq<char>>, all: Seq<Seq<char>>, e: ParseError)
    requires
        first.len() <= all.len(),
        first == all.take(first.len() as int),
        keys_of_tokens(first) == Err::<Seq<AnimStateKey>, ParseError>(e),
    ensures
        keys_of_tokens(all) == Err::<Seq<AnimStateKey>, ParseError>(e),
    decreases all.len() - first.len(),
{
    if first.len() < all.len() {
        let next = all.take(first.len() as int + 1);
        assert(next.drop_last() =~= first);
        assert(next =~= all.take(next.len() as int));
        refusal_stays(next, all, e);
    } else {
        assert(first =~= all);
    }
}

/// The tokens that end before position `i`, where a `+` stands, are the
/// first tokens of the whole text.
proof fn whole_after_prefix(s: Seq<char>, i: int)
    requires
        0 <= i < s.len(),
        s[i] == joiner(),
    ensures
        tokens(s.take(i)).len() <= tokens(s).len(),
        tokens(s.take(i)) == tokens(s).take(tokens(s.take(i)).len() as int),
{
    prefix_tokens(s, i + 1);
    assert(s.take(i + 1).drop_last() =~= s.take(i));
    let t = tokens(s.take(i + 1));
    assert(t.drop_last() =~= tokens(s.take(i)));
    assert(tokens(s.take(i)) =~= tokens(s).take(tokens(s.take(i)).len() as int));
}

/// All but the last of the tokens of a prefix are tokens of the whole text.
proof fn prefix_tokens(s: Seq<char>, i: int)
    requires
        0 <= i <= s.len(),
    ensures
        0 < tokens(s.take(i)).len() <= tokens(s).len(),
        tokens(s.take(i)).drop_last() == tokens(s).take(tokens(s.take(i)).len() - 1),
    decreases s.len() - i,
{
    tokens_nonempty(s.take(i));
    if i == s.len() {
        assert(s.take(i) =~= s);
    } else {
        prefix_tokens(s, i + 1);
        assert(s.take(i + 1).drop_last() =~= s.take(i));
        let short = tokens(s.take(i));
        let long = tokens(s.take(i + 1));
        assert(short.drop_last() =~= long.drop_last().take(short.len() - 1));
        assert(short.drop_last() =~= tokens(s).take(short.len() - 1));
    }
}

/// A text has at least one token.
proof fn tokens_nonempty(s: Seq<char>)
    ensures
        tokens(s).len() > 0,
    decreases s.len(),
{
    if s.len() > 0 {
        tokens_nonempty(s.drop_last());
    }
}


/// The text of one slot.
fn slot_name(key: AnimStateKey) -> (name: &'static str)
    ensures
        name@ == slot_text(key),
{
    match key {
        AnimStateKey::Hover => "Hover",
        AnimStateKey::Pressed => "Pressed",
        AnimStateKey::Disabled => "Disabled",
        AnimStateKey::Normal => {
            proof {
                reveal_strlit("");
                assert(""@ =~= Seq::<char>::empty());
            }
            ""
        },
        AnimStateKey::Active => "Active",
    }
}

/// States read from two texts that name the same keys, in whatever order,
/// are the same state.
pub proof fn order_of_keys_is_ignored(
    first: Seq<AnimStateKey>,
    second: Seq<AnimStateKey>,
    state1: AnimState,
    state2: AnimState,
)
    requires
        forall|k: AnimStateKey| occurrences(padded(first), k) == occurrences(padded(second), k),
        is_canonical_of(state1@, padded(first)),
        is_canonical_of(state2@, padded(second)),
    ensures
        state1@ == state2@,
{
    canonical_is_unique(state1@, state2@, padded(first));
}

/// An `AnimState` consists of one or more (up to four) state keys, for
/// example `Active` + `Pressed`, or `Hover`. In text the keys are joined by
/// `+`, and whitespace around them is ignored. The `Normal` key is special and
/// can only be present by itself.
///
/// The four slots are always held in ascending key order, the unused ones
/// filled with `Normal`, so that two states with the same keys are equal
/// however they were put together.
#[derive(Copy, Clone, Debug, PartialEq, Eq, Hash)]
pub struct AnimState {
    keys: [AnimStateKey; 4],
}

impl View for AnimState {
    type V = Seq<AnimStateKey>;

    closed spec fn view(&self) -> Seq<AnimStateKey> {
        self.keys@
    }
}

impl AnimState {
    #[verifier::type_invariant]
    spec fn in_order(self) -> bool {
        is_sorted(self.keys@)
    }

    /// The four slots, which every state holds in ascending key order.
    pub fn keys(&self) -> (keys: [AnimStateKey; 4])
        ensures
            keys@ == self@,
            is_sorted(keys@),
    {
        proof {
            use_type_invariant(self);
        }
        self.keys
    }

    fn from_slots(slots: [AnimStateKey; 4]) -> (state: AnimState)
        ensures
            is_canonical_of(state@, slots@),
    {
        let mut keys = slots;
        sort_keys(&mut keys);
        AnimState { keys }
    }

    /// Creates an AnimState with the two specified state keys.
    pub fn with_two(state1: AnimStateKey, state2: AnimStateKey) -> (state: AnimState)
        ensures
            is_canonical_of(state@, seq![state1, state2, AnimStateKey::Normal, AnimStateKey::Normal]),
    {
        let slots = [state1, state2, AnimStateKey::Normal, AnimStateKey::Normal];
        assert(slots@ =~= seq![state1, state2, AnimStateKey::Normal, AnimStateKey::Normal]);
        AnimState::from_slots(slots)
    }

    /// Creates an AnimState with the three specified state keys.
    pub fn with_three(state1: AnimStateKey, state2: AnimStateKey, state3: AnimStateKey) -> (state:
        AnimState)
        ensures
            is_canonical_of(state@, seq![state1, state2, state3, AnimStateKey::Normal]),
    {
        let slots = [state1, state2, state3, AnimStateKey::Normal];
        assert(slots@ =~= seq![state1, state2, state3, AnimStateKey::Normal]);
        AnimState::from_slots(slots)
    }

    /// Creates an AnimState with the four specified state keys.
    pub fn with_four(
        state1: AnimStateKey,
        state2: AnimStateKey,
        state3: AnimStateKey,
        state4: AnimStateKey,
    ) -> (state: AnimState)
        ensures
            is_canonical_of(state@, seq![state1, state2, state3, state4]),
    {
        let slots = [state1, state2, state3, state4];
        assert(slots@ =~= seq![state1, state2, state3, state4]);
        AnimState::from_slots(slots)
    }

    /// Creates an AnimState consisting of the single specified `state`.
    pub fn new(state: AnimStateKey) -> (result: AnimState)
        ensures
            is_canonical_of(
                result@,
                seq![state, AnimStateKey::Normal, AnimStateKey::Normal, AnimStateKey::Normal],
            ),
    {
        let slots = [state, AnimStateKey::Normal, AnimStateKey::Normal, AnimStateKey::Normal];
        assert(slots@ =~= seq![
            state,
            AnimStateKey::Normal,
            AnimStateKey::Normal,
            AnimStateKey::Normal,
        ]);
        AnimState::from_slots(slots)
    }

    /// Creates an AnimState corresponding to the Normal state with no changes
    pub fn normal() -> (state: AnimState)
        ensures
            state@ == seq![
                AnimStateKey::Normal,
                AnimStateKey::Normal,
                AnimStateKey::Normal,
                AnimStateKey::Normal,
            ],
    {
        let keys = [
            AnimStateKey::Normal,
            AnimStateKey::Normal,
            AnimStateKey::Normal,
            AnimStateKey::Normal,
        ];
        assert(keys@ =~= seq![
            AnimStateKey::Normal,
            AnimStateKey::Normal,
            AnimStateKey::Normal,
            AnimStateKey::Normal,
        ]);
        AnimState { keys }
    }

    /// Creates an AnimState consisting of only the Pressed state.
    pub fn pressed() -> (state: AnimState)
        ensures
            state@ == seq![
                AnimStateKey::Pressed,
                AnimStateKey::Normal,
                AnimStateKey::Normal,
                AnimStateKey::Normal,
            ],
    {
        let keys = [
            AnimStateKey::Pressed,
            AnimStateKey::Normal,
            AnimStateKey::Normal,
            AnimStateKey::Normal,
        ];
        assert(keys@ =~= seq![
            AnimStateKey::Pressed,
            AnimStateKey::Normal,
            AnimStateKey::Normal,
            AnimStateKey::Normal,
        ]);
        AnimState { keys }
    }

    /// Creates an AnimState consisting of the Hover state.
    pub fn hover() -> (state: AnimState)
        ensures
            state@ == seq![
                AnimStateKey::Hover,
                AnimStateKey::Normal,
                AnimStateKey::Normal,
                AnimStateKey::Normal,
            ],
    {
        let keys = [
            AnimStateKey::Hover,
            AnimStateKey::Normal,
            AnimStateKey::Normal,
            AnimStateKey::Normal,
        ];
        assert(keys@ =~= seq![
            AnimStateKey::Hover,
            AnimStateKey::Normal,
            AnimStateKey::Normal,
            AnimStateKey::Normal,
        ]);
        AnimState { keys }
    }

    /// Creates an AnimState consisting of only the Disabled state.
    pub fn disabled() -> (state: AnimState)
        ensures
            state@ == seq![
                AnimStateKey::Disabled,
                AnimStateKey::Normal,
                AnimStateKey::Normal,
                AnimStateKey::Normal,
            ],
    {
        let keys = [
            AnimStateKey::Disabled,
            AnimStateKey::Normal,
            AnimStateKey::Normal,
            AnimStateKey::Normal,
        ];
        assert(keys@ =~= seq![
            AnimStateKey::Disabled,
            AnimStateKey::Normal,
            AnimStateKey::Normal,
            AnimStateKey::Normal,
        ]);
        AnimState { keys }
    }

    /// Whether this state and `other` hold the same keys.
    pub fn same_as(&self, other: &AnimState) -> (same: bool)
        ensures
            same == (self@ == other@),
    {
        proof {
            use_type_invariant(self);
            use_type_invariant(other);
        }
        let same = self.keys[0] == other.keys[0] && self.keys[1] == other.keys[1] && self.keys[2]
            == other.keys[2] && self.keys[3] == other.keys[3];
        proof {
            if same {
                assert(self@ =~= other@);
            }
        }
        same
    }

    /// Returns whether or not this `AnimState` contains the specified key.
    pub fn contains(&self, key: AnimStateKey) -> (found: bool)
        ensures
            found == self@.contains(key),
    {
        proof {
            use_type_invariant(self);
        }
        let mut i: usize = 0;
        while i < 4
            invariant
                i <= 4,
                self.keys@.len() == 4,
                forall|j: int| 0 <= j < i ==> self.keys@[j] != key,
            decreases 4 - i,
        {
            if self.keys[i] == key {
                return true;
            }
            i += 1;
        }
        false
    }

    /// Adds the given state key to this `AnimState`, in place of a `Normal`
    /// slot. Adding `Normal` has no effect, nor has adding to a state
    /// without a `Normal` slot.
    pub fn add(&mut self, to_add: AnimStateKey)
        ensures
            is_canonical_of(final(self)@, with_added(old(self)@, to_add)),
    {
        proof {
            use_type_invariant(&*self);
        }
        let mut keys = self.keys;
        let mut i: usize = 0;
        while i < 4
            invariant_except_break
                i <= 4,
                keys@ == old(self)@,
                forall|j: int| 0 <= j < i ==> keys@[j] != AnimStateKey::Normal,
            ensures
                keys@ == with_added(old(self)@, to_add),
            decreases 4 - i,
        {
            if keys[i] == AnimStateKey::Normal {
                keys[i] = to_add;
                break;
            }
            i += 1;
        }
        sort_keys(&mut keys);
        self.keys = keys;
    }
    /// Reads a state from text of the form `Key (+ Key)*`.
    pub fn parse(value: &str) -> (r: Result<AnimState, ParseError>)
        ensures
            match r {
                Ok(state) => parsed_keys(value@) matches Ok(keys) && is_canonical_of(
                    state@,
                    padded(keys),
                ),
                Err(e) => parsed_keys(value@) == Err::<Seq<AnimStateKey>, ParseError>(e),
            },
    {
        let chars = chars_of(value);
        let mut keys = [
            AnimStateKey::Normal,
            AnimStateKey::Normal,
            AnimStateKey::Normal,
            AnimStateKey::Normal,
        ];
        let mut count: usize = 0;
        let mut start: usize = 0;
        let mut i: usize = 0;
        let ghost mut done: Seq<Seq<char>> = Seq::empty();
        assert(keys@ =~= padded(keys@.take(0)));
        assert(keys@.take(0) =~= Seq::<AnimStateKey>::empty());
        assert(chars@.take(0) =~= Seq::<char>::empty());
        assert(chars@.subrange(0, 0) =~= Seq::<char>::empty());
        assert(tokens(chars@.take(0)) =~= done.push(chars@.subrange(0, 0)));
        while i < chars.len()
            invariant
                start <= i <= chars.len(),
                chars@ == value@,
                count == done.len(),
                count <= SLOTS,
                tokens(chars@.take(i as int)) == done.push(chars@.subrange(start as int, i as int)),
                keys_of_tokens(done) == Ok::<Seq<AnimStateKey>, ParseError>(keys@.take(count as int)),
                keys@ == padded(keys@.take(count as int)),
            decreases chars.len() - i,
        {
            let ghost token = chars@.subrange(start as int, i as int);
            proof {
                assert(chars@.take(i + 1).drop_last() =~= chars@.take(i as int));
                assert(chars@.take(i + 1).last() == chars@[i as int]);
            }
            if chars[i] == '+' {
                match take_token(&mut keys, count, &chars, start, i) {
                    Err(e) => {
                        proof {
                            assert(done.push(token).drop_last() =~= done);
                            whole_after_prefix(chars@, i as int);
                            refusal_stays(done.push(token), tokens(value@), e);
                        }
                        return Err(e);
                    },
                    Ok(()) => {},
                }
                proof {
                    assert(done.push(token).drop_last() =~= done);
                    done = done.push(token);
                    assert(chars@.subrange(i + 1, i + 1) =~= Seq::<char>::empty());
                }
                count += 1;
                start = i + 1;
            } else {
                proof {
                    assert(token.push(chars@[i as int]) =~= chars@.subrange(start as int, i + 1));
                    assert(done.push(token).update(done.len() as int, token.push(chars@[i as int]))
                        =~= done.push(chars@.subrange(start as int, i + 1)));
                }
            }
            i += 1;
        }
        let ghost token = chars@.subrange(start as int, i as int);
        proof {
            assert(chars@.take(i as int) =~= chars@);
            assert(done.push(token).drop_last() =~= done);
        }
        match take_token(&mut keys, count, &chars, start, i) {
            Err(e) => Err(e),
            Ok(()) => {
                let state = AnimState::from_slots(keys);
                Ok(state)
            },
        }
    }
    /// Writes the state as text: its four slots joined by `+`, a `Normal`
    /// slot left empty.
    pub fn to_text(&self) -> (text: String)
        ensures
            text@ == text_of(self@),
    {
        proof {
            use_type_invariant(self);
            reveal_strlit("+");
            assert("+"@ =~= seq![joiner()]);
        }
        let mut text = String::from_str(slot_name(self.keys[0]));
        text.append("+");
        text.append(slot_name(self.keys[1]));
        text.append("+");
        text.append(slot_name(self.keys[2]));
        text.append("+");
        text.append(slot_name(self.keys[3]));
        text
    }
}

} // verus!

//! Platform-neutral, validated Hotkeys data model.

use vstd::prelude::*;
use vstd::string::*;
use vstd::relations::*;
use vstd::seq_lib::*;

use crate::text::{same_text, text_len};

verus! {

broadcast use vstd::seq_lib::group_to_multiset_ensures;

/// Domain construction errors. Labels are limited to 120 Unicode scalar values.
#[derive(Clone, Copy, Debug, PartialEq, Eq, Structural)]
pub enum DomainError {
    InvalidKeyToken,
    KeyTokenTooLong,
    InvalidLabel,
    LabelTooLong,
    DuplicateModifier(Modifier),
    AmbiguousModifierFamily(ModifierFamily),
    ModifierAsPrimaryKey,
}

/// The longest key token, in bytes (all token characters are ASCII, one byte each).
pub const KEY_TOKEN_MAX_BYTES: usize = 64;

/// The longest label, in Unicode scalar values.
pub const LABEL_MAX_SCALARS: usize = 120;

/// Characters allowed in a key token: ASCII letters and digits, `_` and `-`.
pub open spec fn is_token_char(c: char) -> bool {
    ('a' <= c && c <= 'z') || ('A' <= c && c <= 'Z') || ('0' <= c && c <= '9') || c == '_' || c
        == '-'
}

fn is_token_character(c: char) -> (allowed: bool)
    ensures
        allowed == is_token_char(c),
{
    ('a' <= c && c <= 'z') || ('A' <= c && c <= 'Z') || ('0' <= c && c <= '9') || c == '_' || c
        == '-'
}

pub open spec fn token_chars_valid(text: Seq<char>) -> bool {
    text.len() > 0 && forall|i: int| 0 <= i < text.len() ==> #[trigger] is_token_char(text[i])
}

/// A text that `KeyToken::new` accepts.
pub open spec fn valid_key_token(text: Seq<char>) -> bool {
    token_chars_valid(text) && text.len() <= KEY_TOKEN_MAX_BYTES
}

/// An ASCII-safe canonical token, such as `Enter`, `KeyA`, or `NumpadEnter`.
#[derive(Debug, PartialEq, Eq, Hash, PartialOrd, Ord)]
pub struct KeyToken(String);

impl View for KeyToken {
    type V = Seq<char>;

    closed spec fn view(&self) -> Seq<char> {
        self.0@
    }
}

impl KeyToken {
    /// The longest key token, in bytes.
    pub const MAX_BYTES: usize = KEY_TOKEN_MAX_BYTES;

    #[verifier::type_invariant]
    closed spec fn inv(self) -> bool {
        valid_key_token(self.0@)
    }

    /// Validates `value`: empty text or a character outside ASCII letters, digits, `_` and
    /// `-` is `InvalidKeyToken`; otherwise more than 64 bytes is `KeyTokenTooLong`.
    pub fn new(value: &str) -> (result: Result<KeyToken, DomainError>)
        ensures
            !token_chars_valid(value@) ==> result == Err::<KeyToken, DomainError>(
                DomainError::InvalidKeyToken,
            ),
            token_chars_valid(value@) && value@.len() > KEY_TOKEN_MAX_BYTES ==> result == Err::<
                KeyToken,
                DomainError,
            >(DomainError::KeyTokenTooLong),
            valid_key_token(value@) ==> (result matches Ok(token) && token@ == value@),
    {
        let mut valid = true;
        for c in iter: value.chars()
            invariant
                valid == (forall|i: int|
                    0 <= i < iter.index() ==> #[trigger] is_token_char(iter.seq()[i])),
        {
            if !is_token_character(c) {
                valid = false;
            }
        }
        let length = text_len(value);
        if length == 0 || !valid {
            return Err(DomainError::InvalidKeyToken);
        }
        if length > KEY_TOKEN_MAX_BYTES {
            return Err(DomainError::KeyTokenTooLong);
        }
        Ok(KeyToken(value.to_owned()))
    }

    pub fn as_str(&self) -> (text: &str)
        ensures
            text@ == self@,
            valid_key_token(text@),
    {
        proof {
            use_type_invariant(self);
        }
        self.0.as_str()
    }

    /// Returns a token with the same text.
    pub fn duplicate(&self) -> (copy: KeyToken)
        ensures
            copy@ == self@,
    {
        proof {
            use_type_invariant(self);
        }
        KeyToken(self.0.clone())
    }

    pub fn same_as(&self, other: &KeyToken) -> (same: bool)
        ensures
            same == (self@ == other@),
    {
        self.0 == other.0
    }
}

impl Clone for KeyToken {
    fn clone(&self) -> (copy: KeyToken)
        ensures
            copy@ == self@,
    {
        self.duplicate()
    }
}

/// The abstract value of a key identity.
pub enum KeyIdentityView {
    Logical(Seq<char>),
    Physical(Seq<char>),
}

impl KeyIdentityView {
    pub open spec fn token(self) -> Seq<char> {
        match self {
            KeyIdentityView::Logical(token) => token,
            KeyIdentityView::Physical(token) => token,
        }
    }
}

/// Logical and physical identities deliberately remain distinct even with equal tokens.
#[derive(Clone, Debug, PartialEq, Eq, Hash, PartialOrd, Ord)]
pub enum KeyIdentity {
    Logical(KeyToken),
    Physical(KeyToken),
}

impl View for KeyIdentity {
    type V = KeyIdentityView;

    open spec fn view(&self) -> KeyIdentityView {
        match self {
            KeyIdentity::Logical(token) => KeyIdentityView::Logical(token@),
            KeyIdentity::Physical(token) => KeyIdentityView::Physical(token@),
        }
    }
}

impl KeyIdentity {
    pub fn token(&self) -> (token: &KeyToken)
        ensures
            token@ == self@.token(),
    {
        match self {
            KeyIdentity::Logical(token) => token,
            KeyIdentity::Physical(token) => token,
        }
    }

    pub fn duplicate(&self) -> (copy: KeyIdentity)
        ensures
            copy@ == self@,
    {
        match self {
            KeyIdentity::Logical(token) => KeyIdentity::Logical(token.duplicate()),
            KeyIdentity::Physical(token) => KeyIdentity::Physical(token.duplicate()),
        }
    }

    pub fn same_as(&self, other: &KeyIdentity) -> (same: bool)
        ensures
            same == (self@ == other@),
    {
        match (self, other) {
            (KeyIdentity::Logical(a), KeyIdentity::Logical(b)) => a.same_as(b),
            (KeyIdentity::Physical(a), KeyIdentity::Physical(b)) => a.same_as(b),
            _ => false,
        }
    }
}

#[derive(Clone, Copy, Debug, PartialEq, Eq, Structural, Hash, PartialOrd, Ord)]
pub enum Modifier {
    Ctrl,
    LeftCtrl,
    RightCtrl,
    Shift,
    LeftShift,
    RightShift,
    Alt,
    LeftAlt,
    RightAlt,
    Meta,
    LeftMeta,
    RightMeta,
}

#[derive(Clone, Copy, Debug, PartialEq, Eq, Structural)]
pub enum ModifierFamily {
    Ctrl,
    Shift,
    Alt,
    Meta,
}

impl Modifier {
    /// Position in the canonical modifier order (the declaration order).
    pub open spec fn rank(self) -> int {
        match self {
            Modifier::Ctrl => 0,
            Modifier::LeftCtrl => 1,
            Modifier::RightCtrl => 2,
            Modifier::Shift => 3,
            Modifier::LeftShift => 4,
            Modifier::RightShift => 5,
            Modifier::Alt => 6,
            Modifier::LeftAlt => 7,
            Modifier::RightAlt => 8,
            Modifier::Meta => 9,
            Modifier::LeftMeta => 10,
            Modifier::RightMeta => 11,
        }
    }

    pub open spec fn spec_family(self) -> ModifierFamily {
        match self {
            Modifier::Ctrl | Modifier::LeftCtrl | Modifier::RightCtrl => ModifierFamily::Ctrl,
            Modifier::Shift | Modifier::LeftShift | Modifier::RightShift => ModifierFamily::Shift,
            Modifier::Alt | Modifier::LeftAlt | Modifier::RightAlt => ModifierFamily::Alt,
            Modifier::Meta | Modifier::LeftMeta | Modifier::RightMeta => ModifierFamily::Meta,
        }
    }

    pub open spec fn spec_is_generic(self) -> bool {
        self == Modifier::Ctrl || self == Modifier::Shift || self == Modifier::Alt || self
            == Modifier::Meta
    }

    pub open spec fn spec_token(self) -> Seq<char> {
        match self {
            Modifier::Ctrl => "Ctrl"@,
            Modifier::LeftCtrl => "LeftCtrl"@,
            Modifier::RightCtrl => "RightCtrl"@,
            Modifier::Shift => "Shift"@,
            Modifier::LeftShift => "LeftShift"@,
            Modifier::RightShift => "RightShift"@,
            Modifier::Alt => "Alt"@,
            Modifier::LeftAlt => "LeftAlt"@,
            Modifier::RightAlt => "RightAlt"@,
            Modifier::Meta => "Meta"@,
            Modifier::LeftMeta => "LeftMeta"@,
            Modifier::RightMeta => "RightMeta"@,
        }
    }

    pub fn order(self) -> (rank: u8)
        ensures
            rank == self.rank(),
    {
        match self {
            Modifier::Ctrl => 0,
            Modifier::LeftCtrl => 1,
            Modifier::RightCtrl => 2,
            Modifier::Shift => 3,
            Modifier::LeftShift => 4,
            Modifier::RightShift => 5,
            Modifier::Alt => 6,
            Modifier::LeftAlt => 7,
            Modifier::RightAlt => 8,
            Modifier::Meta => 9,
            Modifier::LeftMeta => 10,
            Modifier::RightMeta => 11,
        }
    }

    pub fn family(self) -> (family: ModifierFamily)
        ensures
            family == self.spec_family(),
    {
        match self {
            Modifier::Ctrl | Modifier::LeftCtrl | Modifier::RightCtrl => ModifierFamily::Ctrl,
            Modifier::Shift | Modifier::LeftShift | Modifier::RightShift => ModifierFamily::Shift,
            Modifier::Alt | Modifier::LeftAlt | Modifier::RightAlt => ModifierFamily::Alt,
            Modifier::Meta | Modifier::LeftMeta | Modifier::RightMeta => ModifierFamily::Meta,
        }
    }

    pub fn is_generic(self) -> (generic: bool)
        ensures
            generic == self.spec_is_generic(),
    {
        matches!(self, Modifier::Ctrl | Modifier::Shift | Modifier::Alt | Modifier::Meta)
    }

    pub fn token(self) -> (token: &'static str)
        ensures
            token@ == self.spec_token(),
    {
        match self {
            Modifier::Ctrl => "Ctrl",
            Modifier::LeftCtrl => "LeftCtrl",
            Modifier::RightCtrl => "RightCtrl",
            Modifier::Shift => "Shift",
            Modifier::LeftShift => "LeftShift",
            Modifier::RightShift => "RightShift",
            Modifier::Alt => "Alt",
            Modifier::LeftAlt => "LeftAlt",
            Modifier::RightAlt => "RightAlt",
            Modifier::Meta => "Meta",
            Modifier::LeftMeta => "LeftMeta",
            Modifier::RightMeta => "RightMeta",
        }
    }
}

/// Canonical modifier order.
pub open spec fn modifier_order() -> spec_fn(Modifier, Modifier) -> bool {
    |a: Modifier, b: Modifier| a.rank() <= b.rank()
}

pub proof fn lemma_modifier_order_total()
    ensures
        total_ordering(modifier_order()),
{
    assert forall|a: Modifier, b: Modifier|
        #[trigger] modifier_order()(a, b) && #[trigger] modifier_order()(b, a) implies a == b by {
        assert(a.rank() == b.rank());
    }
}

/// Index `k` of `mods` repeats an earlier modifier.
pub open spec fn repeats_earlier(mods: Seq<Modifier>, k: int) -> bool {
    exists|j: int| 0 <= j < k && mods[j] == mods[k]
}

/// Index `k` is the first position at which a modifier repeats.
pub open spec fn is_first_repeat(mods: Seq<Modifier>, k: int) -> bool {
    &&& 0 <= k < mods.len()
    &&& repeats_earlier(mods, k)
    &&& forall|j: int| 0 <= j < k ==> !repeats_earlier(mods, j)
}

/// At least two different modifiers of `family` occur, one of them generic (such as `Ctrl`).
pub open spec fn ambiguous_family(mods: Seq<Modifier>, family: ModifierFamily) -> bool {
    &&& exists|a: Modifier, b: Modifier|
        a != b && mods.contains(a) && mods.contains(b) && a.spec_family() == family
            && b.spec_family() == family
    &&& exists|g: Modifier| mods.contains(g) && g.spec_is_generic() && g.spec_family() == family
}

/// Some modifier's canonical token equals the primary key's token.
pub open spec fn modifier_names_primary(mods: Seq<Modifier>, primary: KeyIdentityView) -> bool {
    exists|m: Modifier| mods.contains(m) && m.spec_token() == primary.token()
}

/// What `Chord::new` gives for `mods` and `primary`: the first repeated modifier, then the
/// first ambiguous family in the order Ctrl, Shift, Alt, Meta, then a modifier named by the
/// primary key are errors; otherwise the chord holds the modifiers in canonical order.
pub open spec fn chord_outcome(mods: Seq<Modifier>, primary: KeyIdentityView) -> Result<
    ChordView,
    DomainError,
> {
    if !mods.no_duplicates() {
        Err(DomainError::DuplicateModifier(mods[choose|k: int| is_first_repeat(mods, k)]))
    } else if ambiguous_family(mods, ModifierFamily::Ctrl) {
        Err(DomainError::AmbiguousModifierFamily(ModifierFamily::Ctrl))
    } else if ambiguous_family(mods, ModifierFamily::Shift) {
        Err(DomainError::AmbiguousModifierFamily(ModifierFamily::Shift))
    } else if ambiguous_family(mods, ModifierFamily::Alt) {
        Err(DomainError::AmbiguousModifierFamily(ModifierFamily::Alt))
    } else if ambiguous_family(mods, ModifierFamily::Meta) {
        Err(DomainError::AmbiguousModifierFamily(ModifierFamily::Meta))
    } else if modifier_names_primary(mods, primary) {
        Err(DomainError::ModifierAsPrimaryKey)
    } else {
        Ok(ChordView { modifiers: mods.sort_by(modifier_order()), primary })
    }
}

/// The abstract value of a chord.
pub struct ChordView {
    pub modifiers: Seq<Modifier>,
    pub primary: KeyIdentityView,
}

/// A normalized chord. Empty modifiers are valid: a future runtime may support single keys.
#[derive(Debug, PartialEq, Eq, Hash, PartialOrd, Ord)]
pub struct Chord {
    modifiers: Vec<Modifier>,
    primary: KeyIdentity,
}

impl View for Chord {
    type V = ChordView;

    closed spec fn view(&self) -> ChordView {
        ChordView { modifiers: self.modifiers@, primary: self.primary@ }
    }
}

impl Chord {
    #[verifier::type_invariant]
    closed spec fn inv(self) -> bool {
        sorted_by(self.modifiers@, modifier_order()) && self.modifiers@.no_duplicates()
    }

    /// Normalizes `modifiers` (any order) into a chord with `primary`; see `chord_outcome`.
    pub fn new(modifiers: &[Modifier], primary: KeyIdentity) -> (result: Result<
        Chord,
        DomainError,
    >)
        ensures
            match result {
                Ok(chord) => chord_outcome(modifiers@, primary@) == Ok::<ChordView, DomainError>(
                    chord@,
                ),
                Err(error) => chord_outcome(modifiers@, primary@) == Err::<ChordView, DomainError>(
                    error,
                ),
            },
    {
        let ghost mods = modifiers@;
        let mut normalized: Vec<Modifier> = Vec::new();
        let mut i: usize = 0;
        while i < modifiers.len()
            invariant
                mods == modifiers@,
                0 <= i <= mods.len(),
                sorted_by(normalized@, modifier_order()),
                normalized@.to_multiset() == mods.subrange(0, i as int).to_multiset(),
                forall|k: int| 0 <= k < i ==> !repeats_earlier(mods, k),
            decreases mods.len() - i,
        {
            let m = modifiers[i];
            let mut k: usize = 0;
            while k < normalized.len() && normalized[k].order() < m.order()
                invariant
                    0 <= k <= normalized@.len(),
                    forall|j: int| 0 <= j < k ==> normalized@[j].rank() < m.rank(),
                decreases normalized@.len() - k,
            {
                k += 1;
            }
            proof {
                assert(mods.subrange(0, i + 1) == mods.subrange(0, i as int).push(m));
            }
            if k < normalized.len() && normalized[k] == m {
                proof {
                    assert(normalized@.to_multiset().contains(m));
                    assert(mods.subrange(0, i as int).to_multiset().contains(m));
                    let j = choose|j: int| 0 <= j < i && mods.subrange(0, i as int)[j] == m;
                    assert(mods[j] == mods[i as int]);
                    assert(repeats_earlier(mods, i as int));
                    assert(is_first_repeat(mods, i as int));
                    assert(!mods.no_duplicates());
                    let c = choose|c: int| is_first_repeat(mods, c);
                    assert(c == i) by {
                        if c < i {
                            assert(!repeats_earlier(mods, c));
                        } else if c > i {
                            assert(!repeats_earlier(mods, i as int));
                        }
                    }
                }
                return Err(DomainError::DuplicateModifier(m));
            }
            let ghost before = normalized@;
            proof {
                assert(!repeats_earlier(mods, i as int)) by {
                    if repeats_earlier(mods, i as int) {
                        let j = choose|j: int| 0 <= j < i && mods[j] == mods[i as int];
                        assert(mods.subrange(0, i as int)[j] == m);
                        assert(mods.subrange(0, i as int).to_multiset().contains(m));
                        assert(before.to_multiset().contains(m));
                        let p = choose|p: int| 0 <= p < before.len() && before[p] == m;
                        if p < k {
                        } else {
                            assert(modifier_order()(before[k as int], before[p]));
                            assert(before[k as int].rank() == m.rank());
                            assert(before[k as int] == m);
                        }
                    }
                }
            }
            normalized.insert(k, m);
            proof {
                assert(normalized@ == before.insert(k as int, m));
                assert forall|a: int, b: int|
                    0 <= a < b < normalized@.len() implies #[trigger] modifier_order()(
                    normalized@[a],
                    normalized@[b],
                ) by {
                    if b < k {
                        assert(modifier_order()(before[a], before[b]));
                    } else if a < k && b == k {
                    } else if a < k && b > k {
                        assert(modifier_order()(before[a], before[b - 1]));
                    } else if a == k {
                        assert(m.rank() <= before[k as int].rank());
                        if b - 1 > k {
                            assert(modifier_order()(before[k as int], before[b - 1]));
                        }
                    } else {
                        assert(modifier_order()(before[a - 1], before[b - 1]));
                    }
                }
            }
            i += 1;
        }
        proof {
            assert(mods.subrange(0, mods.len() as int) == mods);
            assert(mods.no_duplicates()) by {
                if !mods.no_duplicates() {
                    let (a, b) = choose|a: int, b: int|
                        0 <= a < mods.len() && 0 <= b < mods.len() && a != b && mods[a]
                            == mods[b];
                    if a < b {
                        assert(repeats_earlier(mods, b));
                    } else {
                        assert(repeats_earlier(mods, a));
                    }
                }
            }
            lemma_modifier_order_total();
            mods.lemma_sort_by_ensures(modifier_order());
            lemma_sorted_unique(normalized@, mods.sort_by(modifier_order()), modifier_order());
            assert forall|x: Modifier| normalized@.contains(x) <==> mods.contains(x) by {
                if normalized@.contains(x) {
                    assert(normalized@.to_multiset().contains(x));
                }
                if mods.contains(x) {
                    assert(mods.to_multiset().contains(x));
                }
            }
        }
        proof {
            mods.lemma_multiset_has_no_duplicates();
            assert forall|x: Modifier| normalized@.to_multiset().contains(x) implies normalized@.to_multiset().count(x) == 1 by {
                assert(mods.to_multiset().contains(x));
            }
            normalized@.lemma_multiset_has_no_duplicates_conv();
        }
        let families = [
            ModifierFamily::Ctrl,
            ModifierFamily::Shift,
            ModifierFamily::Alt,
            ModifierFamily::Meta,
        ];
        let mut f: usize = 0;
        while f < 4
            invariant
                0 <= f <= 4,
                families@ == seq![
                    ModifierFamily::Ctrl,
                    ModifierFamily::Shift,
                    ModifierFamily::Alt,
                    ModifierFamily::Meta,
                ],
                mods == modifiers@,
                mods.no_duplicates(),
                normalized@.no_duplicates(),
                forall|x: Modifier| normalized@.contains(x) <==> mods.contains(x),
                forall|g: int| 0 <= g < f ==> !ambiguous_family(mods, #[trigger] families@[g]),
            decreases 4 - f,
        {
            let family = families[f];
            if self::family_is_ambiguous(&normalized, family) {
                proof {
                    assert(ambiguous_family(mods, family));
                    if f >= 1 { assert(!ambiguous_family(mods, families@[0])); }
                    if f >= 2 { assert(!ambiguous_family(mods, families@[1])); }
                    if f >= 3 { assert(!ambiguous_family(mods, families@[2])); }
                }
                return Err(DomainError::AmbiguousModifierFamily(family));
            }
            proof {
                assert(!ambiguous_family(mods, family));
            }
            f += 1;
        }
        proof {
            assert(!ambiguous_family(mods, families@[0]));
            assert(!ambiguous_family(mods, families@[1]));
            assert(!ambiguous_family(mods, families@[2]));
            assert(!ambiguous_family(mods, families@[3]));
        }
        let primary_text = primary.token().as_str().to_owned();
        let mut j: usize = 0;
        while j < normalized.len()
            invariant
                0 <= j <= normalized@.len(),
                primary_text@ == primary@.token(),
                mods == modifiers@,
                mods.no_duplicates(),
                !ambiguous_family(mods, ModifierFamily::Ctrl),
                !ambiguous_family(mods, ModifierFamily::Shift),
                !ambiguous_family(mods, ModifierFamily::Alt),
                !ambiguous_family(mods, ModifierFamily::Meta),
                forall|x: Modifier| normalized@.contains(x) <==> mods.contains(x),
                forall|p: int| 0 <= p < j ==> normalized@[p].spec_token() != primary@.token(),
            decreases normalized@.len() - j,
        {
            let m = normalized[j];
            let token = m.token().to_owned();
            if token == primary_text {
                proof {
                    assert(normalized@.contains(m));
                    assert(mods.contains(m));
                    assert(modifier_names_primary(mods, primary@));
                }
                return Err(DomainError::ModifierAsPrimaryKey);
            }
            j += 1;
        }
        proof {
            if modifier_names_primary(mods, primary@) {
                let m = choose|m: Modifier| mods.contains(m) && m.spec_token() == primary@.token();
                assert(normalized@.contains(m));
            }
        }
        Ok(Chord { modifiers: normalized, primary })
    }

    /// The modifiers, distinct and in canonical order.
    pub fn modifiers(&self) -> (modifiers: &[Modifier])
        ensures
            modifiers@ == self@.modifiers,
            sorted_by(modifiers@, modifier_order()),
            modifiers@.no_duplicates(),
    {
        proof {
            use_type_invariant(self);
        }
        self.modifiers.as_slice()
    }

    pub fn primary(&self) -> (primary: &KeyIdentity)
        ensures
            primary@ == self@.primary,
    {
        &self.primary
    }

    pub fn duplicate(&self) -> (copy: Chord)
        ensures
            copy@ == self@,
    {
        proof {
            use_type_invariant(self);
        }
        let mut modifiers: Vec<Modifier> = Vec::new();
        let mut i: usize = 0;
        while i < self.modifiers.len()
            invariant
                0 <= i <= self.modifiers@.len(),
                modifiers@ == self.modifiers@.subrange(0, i as int),
            decreases self.modifiers@.len() - i,
        {
            modifiers.push(self.modifiers[i]);
            proof {
                assert(self.modifiers@.subrange(0, i + 1) == self.modifiers@.subrange(
                    0,
                    i as int,
                ).push(self.modifiers@[i as int]));
            }
            i += 1;
        }
        proof {
            assert(self.modifiers@.subrange(0, self.modifiers@.len() as int) == self.modifiers@);
        }
        Chord { modifiers, primary: self.primary.duplicate() }
    }

    pub fn same_as(&self, other: &Chord) -> (same: bool)
        ensures
            same == (self@ == other@),
    {
        if self.modifiers.len() != other.modifiers.len() {
            return false;
        }
        let mut i: usize = 0;
        while i < self.modifiers.len()
            invariant
                self.modifiers@.len() == other.modifiers@.len(),
                0 <= i <= self.modifiers@.len(),
                forall|j: int| 0 <= j < i ==> self.modifiers@[j] == other.modifiers@[j],
            decreases self.modifiers@.len() - i,
        {
            if self.modifiers[i] != other.modifiers[i] {
                return false;
            }
            i += 1;
        }
        proof {
            assert(self.modifiers@ == other.modifiers@);
        }
        self.primary.same_as(&other.primary)
    }
}

/// Whether the distinct modifiers `mods` hold two modifiers of `family`, one generic.
fn family_is_ambiguous(mods: &Vec<Modifier>, family: ModifierFamily) -> (ambiguous: bool)
    requires
        mods@.no_duplicates(),
    ensures
        ambiguous == ambiguous_family(mods@, family),
{
    let mut count: usize = 0;
    let mut generic = false;
    let ghost mut p1: int = 0;
    let ghost mut p2: int = 0;
    let mut j: usize = 0;
    while j < mods.len()
        invariant
            0 <= j <= mods@.len(),
            count <= 2,
            count == 0 ==> forall|p: int| 0 <= p < j ==> mods@[p].spec_family() != family,
            count >= 1 ==> 0 <= p1 < j && mods@[p1].spec_family() == family,
            count == 1 ==> forall|p: int|
                0 <= p < j && mods@[p].spec_family() == family ==> p == p1,
            count == 2 ==> 0 <= p2 < j && p1 != p2 && mods@[p2].spec_family() == family,
            generic == (exists|p: int|
                0 <= p < j && mods@[p].spec_is_generic() && mods@[p].spec_family() == family),
        decreases mods@.len() - j,
    {
        let m = mods[j];
        if m.family() == family {
            if count == 0 {
                proof {
                    p1 = j as int;
                }
                count = 1;
            } else if count == 1 {
                proof {
                    p2 = j as int;
                }
                count = 2;
            }
            if m.is_generic() {
                generic = true;
            }
        }
        j += 1;
    }
    proof {
        if count == 2 && generic {
            let a = mods@[p1];
            let b = mods@[p2];
            assert(mods@.contains(a) && mods@.contains(b));
            let p = choose|p: int|
                0 <= p < j && mods@[p].spec_is_generic() && mods@[p].spec_family() == family;
            assert(mods@.contains(mods@[p]));
        } else if ambiguous_family(mods@, family) {
            let (a, b) = choose|a: Modifier, b: Modifier|
                a != b && mods@.contains(a) && mods@.contains(b) && a.spec_family() == family
                    && b.spec_family() == family;
            let g = choose|g: Modifier|
                mods@.contains(g) && g.spec_is_generic() && g.spec_family() == family;
            let pa = choose|p: int| 0 <= p < mods@.len() && mods@[p] == a;
            let pb = choose|p: int| 0 <= p < mods@.len() && mods@[p] == b;
            let pg = choose|p: int| 0 <= p < mods@.len() && mods@[p] == g;
            assert(pa != pb);
            assert(generic);
        }
    }
    count == 2 && generic
}

impl Clone for Chord {
    fn clone(&self) -> (copy: Chord)
        ensures
            copy@ == self@,
    {
        self.duplicate()
    }
}

/// What starts a mapping.
#[derive(Clone, Debug, PartialEq, Eq, Hash)]
pub enum Trigger {
    Chord { chord: Chord },
}

impl View for Trigger {
    type V = ChordView;

    open spec fn view(&self) -> ChordView {
        match self {
            Trigger::Chord { chord } => chord@,
        }
    }
}

impl Trigger {
    pub fn chord(&self) -> (chord: &Chord)
        ensures
            chord@ == self@,
    {
        match self {
            Trigger::Chord { chord } => chord,
        }
    }

    pub fn duplicate(&self) -> (copy: Trigger)
        ensures
            copy@ == self@,
    {
        Trigger::Chord { chord: self.chord().duplicate() }
    }
}

/// The abstract value of an action.
pub enum ActionView {
    EmitShortcut(ChordView),
    Disable,
}

/// What a mapping does when its trigger fires.
#[derive(Clone, Debug, PartialEq, Eq)]
pub enum Action {
    EmitShortcut { chord: Chord },
    Disable,
}

impl View for Action {
    type V = ActionView;

    open spec fn view(&self) -> ActionView {
        match self {
            Action::EmitShortcut { chord } => ActionView::EmitShortcut(chord@),
            Action::Disable => ActionView::Disable,
        }
    }
}

impl Action {
    pub fn duplicate(&self) -> (copy: Action)
        ensures
            copy@ == self@,
    {
        match self {
            Action::EmitShortcut { chord } => Action::EmitShortcut { chord: chord.duplicate() },
            Action::Disable => Action::Disable,
        }
    }
}

#[derive(Clone, Copy, Debug, PartialEq, Eq, Structural)]
pub enum Scope {
    Global,
}

/// Reserved for future behavior semantics; v1 intentionally has no policies.
#[derive(Clone, Copy, Debug, Default, PartialEq, Eq, Structural)]
pub struct MappingBehavior {}

/// A label that `MappingMetadata::new` accepts: absent, or 1 to 120 Unicode scalar values.
pub open spec fn valid_label(label: Option<Seq<char>>) -> bool {
    match label {
        Some(text) => 0 < text.len() <= LABEL_MAX_SCALARS,
        None => true,
    }
}

/// The abstract value of optional label text.
pub open spec fn label_view(label: Option<String>) -> Option<Seq<char>> {
    match label {
        Some(text) => Some(text@),
        None => None,
    }
}

#[derive(Debug, Default, PartialEq, Eq)]
pub struct MappingMetadata {
    label: Option<String>,
}

impl View for MappingMetadata {
    type V = Option<Seq<char>>;

    closed spec fn view(&self) -> Option<Seq<char>> {
        label_view(self.label)
    }
}

impl MappingMetadata {
    /// The longest label, in Unicode scalar values.
    pub const MAX_LABEL_SCALARS: usize = LABEL_MAX_SCALARS;

    #[verifier::type_invariant]
    closed spec fn inv(self) -> bool {
        valid_label(label_view(self.label))
    }

    /// An empty label is `InvalidLabel`; one of more than 120 Unicode scalar values is
    /// `LabelTooLong`; otherwise the metadata holds `label`.
    pub fn new(label: Option<String>) -> (result: Result<MappingMetadata, DomainError>)
        ensures
            match label {
                Some(text) => if text@.len() == 0 {
                    result == Err::<MappingMetadata, DomainError>(DomainError::InvalidLabel)
                } else if text@.len() > LABEL_MAX_SCALARS {
                    result == Err::<MappingMetadata, DomainError>(DomainError::LabelTooLong)
                } else {
                    result matches Ok(metadata) && metadata@ == Some(text@)
                },
                None => result matches Ok(metadata) && metadata@ == None::<Seq<char>>,
            },
    {
        match label {
            Some(text) => {
                let length = text_len(text.as_str());
                if length == 0 {
                    Err(DomainError::InvalidLabel)
                } else if length > LABEL_MAX_SCALARS {
                    Err(DomainError::LabelTooLong)
                } else {
                    Ok(MappingMetadata { label: Some(text) })
                }
            },
            None => Ok(MappingMetadata { label: None }),
        }
    }

    pub fn label(&self) -> (label: Option<&str>)
        ensures
            match label {
                Some(text) => self@ == Some(text@),
                None => self@ == None::<Seq<char>>,
            },
            valid_label(self@),
    {
        proof {
            use_type_invariant(self);
        }
        match &self.label {
            Some(text) => Some(text.as_str()),
            None => None,
        }
    }

    pub fn duplicate(&self) -> (copy: MappingMetadata)
        ensures
            copy@ == self@,
    {
        proof {
            use_type_invariant(self);
        }
        match &self.label {
            Some(text) => MappingMetadata { label: Some(text.clone()) },
            None => MappingMetadata { label: None },
        }
    }
}

impl Clone for MappingMetadata {
    fn clone(&self) -> (copy: MappingMetadata)
        ensures
            copy@ == self@,
    {
        self.duplicate()
    }
}

/// The abstract value of a mapping.
pub struct MappingView {
    pub id: u128,
    pub enabled: bool,
    pub trigger: ChordView,
    pub action: ActionView,
    pub scope: Scope,
    pub label: Option<Seq<char>>,
}

/// A user-defined hotkey mapping. The identifier is the 128-bit value of the mapping's UUID.
#[derive(Clone, Debug, PartialEq, Eq)]
pub struct Mapping {
    pub id: u128,
    pub enabled: bool,
    pub trigger: Trigger,
    pub action: Action,
    pub scope: Scope,
    pub behavior: MappingBehavior,
    pub metadata: MappingMetadata,
}

impl View for Mapping {
    type V = MappingView;

    open spec fn view(&self) -> MappingView {
        MappingView {
            id: self.id,
            enabled: self.enabled,
            trigger: self.trigger@,
            action: self.action@,
            scope: self.scope,
            label: self.metadata@,
        }
    }
}

/// The abstract values of a list of mappings.
pub open spec fn mapping_views(mappings: Seq<Mapping>) -> Seq<MappingView> {
    mappings.map_values(|mapping: Mapping| mapping@)
}

impl Mapping {
    /// A new mapping with a fresh random (version 4 UUID) identifier.
    pub fn new(
        enabled: bool,
        trigger: Trigger,
        action: Action,
        scope: Scope,
        behavior: MappingBehavior,
        metadata: MappingMetadata,
    ) -> (mapping: Mapping)
        ensures
            is_v4_uuid(mapping.id),
            mapping.enabled == enabled,
            mapping.trigger == trigger,
            mapping.action == action,
            mapping.scope == scope,
            mapping.behavior == behavior,
            mapping.metadata == metadata,
    {
        Self::with_id(random_mapping_id(), enabled, trigger, action, scope, behavior, metadata)
    }

    pub fn with_id(
        id: u128,
        enabled: bool,
        trigger: Trigger,
        action: Action,
        scope: Scope,
        behavior: MappingBehavior,
        metadata: MappingMetadata,
    ) -> (mapping: Mapping)
        ensures
            mapping == (Mapping { id, enabled, trigger, action, scope, behavior, metadata }),
    {
        Mapping { id, enabled, trigger, action, scope, behavior, metadata }
    }

    pub fn duplicate(&self) -> (copy: Mapping)
        ensures
            copy@ == self@,
    {
        Mapping {
            id: self.id,
            enabled: self.enabled,
            trigger: self.trigger.duplicate(),
            action: self.action.duplicate(),
            scope: self.scope,
            behavior: MappingBehavior {},
            metadata: self.metadata.duplicate(),
        }
    }
}

/// The version-4 form of a UUID's 128-bit value: version nibble 4 (bits 76 to 79) and the
/// RFC 4122 variant `10` (bits 62 and 63).
pub open spec fn is_v4_uuid(id: u128) -> bool {
    id & 0xF000_C000_0000_0000_0000u128 == 0x4000_8000_0000_0000_0000u128
}

/// A fresh random identifier: the 128-bit value of `uuid::Uuid::new_v4()`, which masks a
/// random value into the version-4 form. Nothing else is stated of the value, which the
/// operating system's random source decides.
#[verifier::external_body]
fn random_mapping_id() -> (id: u128)
    ensures
        is_v4_uuid(id),
{
    uuid::Uuid::new_v4().as_u128()
}

/// Normalizing a chord does not depend on the order in which its modifiers are given: two
/// orderings of the same modifiers either both repeat a modifier, or give the same outcome
/// (the same chord, or the same error). Which repeated modifier is reported follows the order.
pub proof fn lemma_chord_outcome_order_independent(
    first: Seq<Modifier>,
    second: Seq<Modifier>,
    primary: KeyIdentityView,
)
    requires
        first.to_multiset() == second.to_multiset(),
    ensures
        first.no_duplicates() == second.no_duplicates(),
        first.no_duplicates() ==> chord_outcome(first, primary) == chord_outcome(second, primary),
{
    assert forall|x: Modifier| first.contains(x) <==> second.contains(x) by {
        to_multiset_contains(first, x);
        to_multiset_contains(second, x);
    }
    if first.no_duplicates() {
        first.lemma_multiset_has_no_duplicates();
        assert forall|x: Modifier| second.to_multiset().contains(x) implies second.to_multiset().count(x) == 1 by {
            assert(first.to_multiset().contains(x));
        }
        second.lemma_multiset_has_no_duplicates_conv();
    }
    if second.no_duplicates() {
        second.lemma_multiset_has_no_duplicates();
        assert forall|x: Modifier| first.to_multiset().contains(x) implies first.to_multiset().count(x) == 1 by {
            assert(second.to_multiset().contains(x));
        }
        first.lemma_multiset_has_no_duplicates_conv();
    }
    if first.no_duplicates() {
        assert forall|f: ModifierFamily| ambiguous_family(first, f) == ambiguous_family(second, f) by {
            if ambiguous_family(first, f) {
                let (a, b) = choose|a: Modifier, b: Modifier|
                    a != b && first.contains(a) && first.contains(b) && a.spec_family() == f
                        && b.spec_family() == f;
                let g = choose|g: Modifier|
                    first.contains(g) && g.spec_is_generic() && g.spec_family() == f;
                assert(second.contains(a) && second.contains(b) && second.contains(g));
            }
            if ambiguous_family(second, f) {
                let (a, b) = choose|a: Modifier, b: Modifier|
                    a != b && second.contains(a) && second.contains(b) && a.spec_family() == f
                        && b.spec_family() == f;
                let g = choose|g: Modifier|
                    second.contains(g) && g.spec_is_generic() && g.spec_family() == f;
                assert(first.contains(a) && first.contains(b) && first.contains(g));
            }
        }
        assert(modifier_names_primary(first, primary) == modifier_names_primary(second, primary)) by {
            if modifier_names_primary(first, primary) {
                let m = choose|m: Modifier| first.contains(m) && m.spec_token() == primary.token();
                assert(second.contains(m));
            }
            if modifier_names_primary(second, primary) {
                let m = choose|m: Modifier| second.contains(m) && m.spec_token() == primary.token();
                assert(first.contains(m));
            }
        }
        lemma_modifier_order_total();
        first.lemma_sort_by_ensures(modifier_order());
        second.lemma_sort_by_ensures(modifier_order());
        lemma_sorted_unique(
            first.sort_by(modifier_order()),
            second.sort_by(modifier_order()),
            modifier_order(),
        );
    }
}

/// The name of a modifier family as it appears in messages.
pub open spec fn family_name(family: ModifierFamily) -> Seq<char> {
    match family {
        ModifierFamily::Ctrl => "Ctrl"@,
        ModifierFamily::Shift => "Shift"@,
        ModifierFamily::Alt => "Alt"@,
        ModifierFamily::Meta => "Meta"@,
    }
}

fn family_text(family: ModifierFamily) -> (text: &'static str)
    ensures
        text@ == family_name(family),
{
    match family {
        ModifierFamily::Ctrl => "Ctrl",
        ModifierFamily::Shift => "Shift",
        ModifierFamily::Alt => "Alt",
        ModifierFamily::Meta => "Meta",
    }
}

/// What failed, named as the error's variant (with its modifier or family).
pub open spec fn domain_error_name(error: DomainError) -> Seq<char> {
    match error {
        DomainError::InvalidKeyToken => "InvalidKeyToken"@,
        DomainError::KeyTokenTooLong => "KeyTokenTooLong"@,
        DomainError::InvalidLabel => "InvalidLabel"@,
        DomainError::LabelTooLong => "LabelTooLong"@,
        DomainError::DuplicateModifier(m) => "DuplicateModifier("@ + m.spec_token() + ")"@,
        DomainError::AmbiguousModifierFamily(f) => "AmbiguousModifierFamily("@ + family_name(f)
            + ")"@,
        DomainError::ModifierAsPrimaryKey => "ModifierAsPrimaryKey"@,
    }
}

impl DomainError {
    /// The human-readable explanation of the error.
    pub fn message(&self) -> (text: String)
        ensures
            text@ == "hotkeys domain invariant failed: "@ + domain_error_name(*self),
    {
        let mut text = String::from_str("hotkeys domain invariant failed: ");
        match self {
            DomainError::InvalidKeyToken => text.append("InvalidKeyToken"),
            DomainError::KeyTokenTooLong => text.append("KeyTokenTooLong"),
            DomainError::InvalidLabel => text.append("InvalidLabel"),
            DomainError::LabelTooLong => text.append("LabelTooLong"),
            DomainError::DuplicateModifier(m) => {
                text.append("DuplicateModifier(");
                text.append(m.token());
                text.append(")");
            },
            DomainError::AmbiguousModifierFamily(f) => {
                text.append("AmbiguousModifierFamily(");
                text.append(family_text(*f));
                text.append(")");
            },
            DomainError::ModifierAsPrimaryKey => text.append("ModifierAsPrimaryKey"),
        }
        text
    }
}

/// A generic modifier (`Ctrl`, `Shift`, `Alt` or `Meta`) given together with any other
/// modifier of its family makes the chord ambiguous: the pair is refused with that family,
/// whatever the primary key.
pub proof fn lemma_generic_with_sided_is_ambiguous(
    generic: Modifier,
    other: Modifier,
    primary: KeyIdentityView,
)
    requires
        generic == Modifier::Ctrl || generic == Modifier::Shift || generic == Modifier::Alt
            || generic == Modifier::Meta,
        other != generic,
        other.spec_family() == generic.spec_family(),
    ensures
        chord_outcome(seq![generic, other], primary) == Err::<ChordView, DomainError>(
            DomainError::AmbiguousModifierFamily(generic.spec_family()),
        ),
{
    let mods = seq![generic, other];
    assert(mods.no_duplicates());
    assert(mods.contains(generic) && mods[0] == generic);
    assert(mods.contains(other) && mods[1] == other);
    let f = generic.spec_family();
    assert(ambiguous_family(mods, f));
    assert forall|g: ModifierFamily| g != f implies !ambiguous_family(mods, g) by {
        if ambiguous_family(mods, g) {
            let (a, b) = choose|a: Modifier, b: Modifier|
                a != b && mods.contains(a) && mods.contains(b) && a.spec_family() == g
                    && b.spec_family() == g;
            let k = choose|k: int| 0 <= k < mods.len() && mods[k] == a;
            assert(a == generic || a == other);
        }
    }
}

/// Key tokens are exactly the non-empty texts of at most 64 ASCII letters, digits,
/// underscores and hyphens.
pub proof fn lemma_key_token_alphabet(text: Seq<char>)
    ensures
        valid_key_token(text) <==> (0 < text.len() <= 64 && forall|i: int|
            0 <= i < text.len() ==> ('a' <= #[trigger] text[i] <= 'z') || ('A' <= text[i] <= 'Z')
                || ('0' <= text[i] <= '9') || text[i] == '_' || text[i] == '-'),
{
    assert forall|i: int| 0 <= i < text.len() implies is_token_char(text[i]) == (('a' <= #[trigger] text[i] <= 'z')
        || ('A' <= text[i] <= 'Z') || ('0' <= text[i] <= '9') || text[i] == '_' || text[i]
        == '-') by {}
}

} // verus!

//! Values of clientbound play packets: relative teleport flags, equipment slots, recipe book
//! settings, advancement display flags and the player info entries with their action sections.
use vstd::hash_map::HashMapWithView;
use vstd::prelude::*;
use vstd::string::StringExecFns;

use crate::codec::{
    be_bytes, be_value, lemma_scan_range, read_byte_vec, spec_read_byte_vec, read_be, read_bool, read_string, read_uuid, read_var_int,
    size_var_int, spec_bool, spec_byte_vec, spec_read_string, spec_read_var_int, spec_string,
    spec_var_int, utf8_bytes, uuid_bytes, uuid_value, write_be, write_bool, write_byte_vec,
    write_string, write_uuid, write_var_int, ErrorKind, TransportError,
};
use crate::common::bit_set::{
    bytes_of_words, floored_size, invariant_error, words_from_bytes, BitSet, FixedBitSet,
};

verus! {

broadcast use vstd::std_specs::hash::group_hash_axioms;

/// The string length drax's default string codec allows.
pub const STRING_DEFAULT_CAP: i32 = 131068;

/// Which of a teleport's coordinates are relative, one bit per coordinate number.
#[derive(Debug)]
pub struct RelativeArgument {
    pub bit: u8,
}

impl RelativeArgument {
    pub const X_BIT: u8 = 0x00;

    pub const Y_BIT: u8 = 0x01;

    pub const Z_BIT: u8 = 0x02;

    pub const Y_ROT_BIT: u8 = 0x03;

    pub const X_ROT_BIT: u8 = 0x04;

    pub fn new(bit: u8) -> (r: Self)
        ensures
            r.bit == bit,
    {
        RelativeArgument { bit }
    }

    /// Whether bit number `mask` is set.
    pub fn is_set(&self, mask: u8) -> (r: bool)
        requires
            mask < 8,
        ensures
            r == (self.bit & (1u8 << mask) != 0),
    {
        self.bit & (1u8 << mask) != 0
    }

    /// Sets bit number `mask`.
    pub fn set(&mut self, mask: u8)
        requires
            mask < 8,
        ensures
            final(self).bit == old(self).bit | (1u8 << mask),
    {
        self.bit = self.bit | (1u8 << mask);
    }
}

impl Default for RelativeArgument {
    fn default() -> (r: Self)
        ensures
            r.bit == 0,
    {
        RelativeArgument::new(0)
    }
}

/// After setting bit `m`, it reads as set, and the other bits read as before.
pub proof fn law_relative_bit_set_then_is_set(bit: u8, m: u8, other: u8)
    requires
        m < 8,
        other < 8,
        other != m,
    ensures
        (bit | (1u8 << m)) & (1u8 << m) != 0,
        ((bit | (1u8 << m)) & (1u8 << other) != 0) == (bit & (1u8 << other) != 0),
{
    assert(m < 8 ==> (bit | (1u8 << m)) & (1u8 << m) != 0) by (bit_vector);
    assert(m < 8 && other < 8 && other != m ==> (((bit | (1u8 << m)) & (1u8 << other) != 0) == (bit
        & (1u8 << other) != 0))) by (bit_vector);
}

/// An equipment slot of a living entity.
#[derive(Copy, Clone, Debug, Eq, PartialEq, Hash, Structural)]
pub enum EquipmentSlot {
    MainHand,
    OffHand,
    Feet,
    Legs,
    Chest,
    Head,
}

impl EquipmentSlot {
    pub open spec fn spec_ordinal(self) -> usize {
        match self {
            EquipmentSlot::MainHand => 0,
            EquipmentSlot::OffHand => 1,
            EquipmentSlot::Feet => 2,
            EquipmentSlot::Legs => 3,
            EquipmentSlot::Chest => 4,
            EquipmentSlot::Head => 5,
        }
    }

    /// The slot's position in declaration order.
    pub fn ordinal(self) -> (r: usize)
        ensures
            r == self.spec_ordinal(),
    {
        match self {
            EquipmentSlot::MainHand => 0,
            EquipmentSlot::OffHand => 1,
            EquipmentSlot::Feet => 2,
            EquipmentSlot::Legs => 3,
            EquipmentSlot::Chest => 4,
            EquipmentSlot::Head => 5,
        }
    }

    /// The slot at position `i` in declaration order.
    pub fn from_ordinal(i: usize) -> (r: EquipmentSlot)
        requires
            i < 6,
        ensures
            r.spec_ordinal() == i,
    {
        match i {
            0 => EquipmentSlot::MainHand,
            1 => EquipmentSlot::OffHand,
            2 => EquipmentSlot::Feet,
            3 => EquipmentSlot::Legs,
            4 => EquipmentSlot::Chest,
            _ => EquipmentSlot::Head,
        }
    }
}

/// Ordinals tell the slots apart.
pub proof fn law_equipment_ordinal_injective(a: EquipmentSlot, b: EquipmentSlot)
    ensures
        a.spec_ordinal() == b.spec_ordinal() ==> a == b,
        a.spec_ordinal() < 6,
{
}

/// The books of the recipe book.
#[derive(Copy, Clone, Debug, Eq, PartialEq, Hash, Structural)]
pub enum RecipeBookType {
    Crafting,
    Furnace,
    BlastFurnace,
    Smoker,
}

impl RecipeBookType {
    pub open spec fn spec_ordinal(self) -> u8 {
        match self {
            RecipeBookType::Crafting => 0,
            RecipeBookType::Furnace => 1,
            RecipeBookType::BlastFurnace => 2,
            RecipeBookType::Smoker => 3,
        }
    }

    /// The book's position in declaration order, by which the settings are keyed.
    pub fn ordinal(self) -> (r: u8)
        ensures
            r == self.spec_ordinal(),
    {
        match self {
            RecipeBookType::Crafting => 0,
            RecipeBookType::Furnace => 1,
            RecipeBookType::BlastFurnace => 2,
            RecipeBookType::Smoker => 3,
        }
    }
}

/// Whether a book is open and filtering.
#[derive(Copy, Clone, Debug, Eq, PartialEq, Structural)]
pub struct RecipeBookSetting {
    pub open: bool,
    pub filtering: bool,
}

/// The settings of the books, keyed by book ordinal.
pub struct RecipeBookSettings {
    pub settings: HashMapWithView<u8, RecipeBookSetting>,
}

/// The text of a missing book's setting.
pub open spec fn missing_setting_text(book: u8) -> Seq<char> {
    if book == 0 {
        "Missing recipe book setting for variant: Crafting"@
    } else if book == 1 {
        "Missing recipe book setting for variant: Furnace"@
    } else if book == 2 {
        "Missing recipe book setting for variant: BlastFurnace"@
    } else {
        "Missing recipe book setting for variant: Smoker"@
    }
}

/// The encoding of four settings in book order: open, then filtering, for each.
pub open spec fn spec_settings_bytes(m: Map<u8, RecipeBookSetting>) -> Seq<u8> {
    spec_bool(m[0].open) + spec_bool(m[0].filtering) + spec_bool(m[1].open) + spec_bool(
        m[1].filtering,
    ) + spec_bool(m[2].open) + spec_bool(m[2].filtering) + spec_bool(m[3].open) + spec_bool(
        m[3].filtering,
    )
}

impl RecipeBookSettings {
    /// No book has a setting yet.
    pub fn new() -> (r: Self)
        ensures
            r.settings@ == Map::<u8, RecipeBookSetting>::empty(),
    {
        RecipeBookSettings { settings: HashMapWithView::new() }
    }

    /// Sets the setting of `book`.
    pub fn insert(&mut self, book: RecipeBookType, setting: RecipeBookSetting)
        ensures
            final(self).settings@ == old(self).settings@.insert(book.spec_ordinal(), setting),
    {
        self.settings.insert(book.ordinal(), setting);
    }

    /// Appends the four books' settings in book order; refused, naming the first, when a book
    /// has none.
    pub fn encode(&self, out: &mut Vec<u8>) -> (r: Result<(), TransportError>)
        ensures
            (forall|b: u8| 0 <= b < 4 ==> self.settings@.contains_key(b)) ==> r is Ok && final(out)@
                == old(out)@ + spec_settings_bytes(self.settings@),
            r matches Err(e) ==> exists|b: u8|
                #![trigger self.settings@.contains_key(b)]
                0 <= b < 4 && !self.settings@.contains_key(b) && (forall|c: u8|
                    0 <= c < b ==> self.settings@.contains_key(c)) && e.kind() == ErrorKind::Explain(
                    missing_setting_text(b),
                ),
    {
        let mut buf: Vec<u8> = Vec::new();
        let mut book: u8 = 0;
        while book < 4
            invariant
                book <= 4,
                forall|c: u8| 0 <= c < book ==> self.settings@.contains_key(c),
                buf@ == spec_settings_prefix(self.settings@, book as int),
            decreases 4 - book,
        {
            match self.settings.get(&book) {
                Some(setting) => {
                    write_bool(&mut buf, setting.open);
                    write_bool(&mut buf, setting.filtering);
                },
                None => {
                    return Err(TransportError::Explain(missing_setting(book)));
                },
            }
            book = book + 1;
            assert(buf@ =~= spec_settings_prefix(self.settings@, book as int));
        }
        assert(spec_settings_prefix(self.settings@, 4) =~= spec_settings_bytes(self.settings@)) by {
            reveal_with_fuel(spec_settings_prefix, 5);
        }
        let ghost start = out@;
        let mut i: usize = 0;
        while i < buf.len()
            invariant
                i <= buf@.len(),
                out@ == start + buf@.subrange(0, i as int),
            decreases buf@.len() - i,
        {
            out.push(buf[i]);
            i = i + 1;
        }
        assert(buf@.subrange(0, buf@.len() as int) == buf@);
        Ok(())
    }

    /// Reads the four books' settings in book order.
    pub fn decode(buf: &[u8], pos: usize) -> (r: Result<(RecipeBookSettings, usize), TransportError>)
        requires
            pos <= buf@.len(),
        ensures
            pos + 8 > buf@.len() ==> (r matches Err(e) && e == TransportError::EndOfInput),
            pos + 8 <= buf@.len() ==> (r matches Ok((s, p)) && p == pos + 8 && settings_read(
                s.settings@,
                buf@,
                pos as int,
                4,
            )),
    {
        let blen = buf.len();
        if blen - pos < 8 {
            return Err(TransportError::EndOfInput);
        }
        let mut settings: HashMapWithView<u8, RecipeBookSetting> = HashMapWithView::new();
        let mut book: u8 = 0;
        while book < 4
            invariant
                book <= 4,
                blen == buf@.len(),
                pos + 8 <= blen,
                settings_read(settings@, buf@, pos as int, book as int),
            decreases 4 - book,
        {
            let i = pos + 2 * (book as usize);
            let setting = RecipeBookSetting { open: buf[i] != 0, filtering: buf[i + 1] != 0 };
            let ghost before = settings@;
            settings.insert(book, setting);
            assert(settings@ == before.insert(book, setting));
            let ghost old_book = book;
            book = book + 1;
            assert forall|b: u8| 0 <= b < book implies setting_read_at(settings@, buf@, pos as int, b) by {
                if b < old_book {
                    assert(setting_read_at(before, buf@, pos as int, b));
                }
            }
        }
        Ok((RecipeBookSettings { settings }, pos + 8))
    }

    /// Always eight bytes.
    pub fn size(&self) -> (r: usize)
        ensures
            r == 8,
    {
        8
    }
}

/// Book `b` holds the setting encoded at `pos + 2 * b` of `s`.
pub open spec fn setting_read_at(m: Map<u8, RecipeBookSetting>, s: Seq<u8>, pos: int, b: u8) -> bool {
    m.contains_key(b) && m[b] == (RecipeBookSetting {
        open: s[pos + 2 * b] != 0,
        filtering: s[pos + 2 * b + 1] != 0,
    })
}

/// The first `n` books hold the settings encoded at `pos` of `s`.
pub open spec fn settings_read(m: Map<u8, RecipeBookSetting>, s: Seq<u8>, pos: int, n: int) -> bool {
    forall|b: u8| 0 <= b < n ==> #[trigger] setting_read_at(m, s, pos, b)
}

/// The settings of the first `n` books, encoded.
pub open spec fn spec_settings_prefix(m: Map<u8, RecipeBookSetting>, n: int) -> Seq<u8>
    decreases n,
{
    if n <= 0 {
        seq![]
    } else {
        spec_settings_prefix(m, n - 1) + spec_bool(m[(n - 1) as u8].open) + spec_bool(
            m[(n - 1) as u8].filtering,
        )
    }
}

fn missing_setting(book: u8) -> (r: String)
    ensures
        r@ == missing_setting_text(book),
{
    match book {
        0 => String::from_str("Missing recipe book setting for variant: Crafting"),
        1 => String::from_str("Missing recipe book setting for variant: Furnace"),
        2 => String::from_str("Missing recipe book setting for variant: BlastFurnace"),
        _ => String::from_str("Missing recipe book setting for variant: Smoker"),
    }
}

/// A property of a game profile (a skin texture, say), signed or not.
#[derive(Debug)]
pub struct GameProfileProperty {
    pub name: String,
    pub value: String,
    pub signature: Option<String>,
}

/// A player's identity: uuid (as a 128-bit number), name and properties.
#[derive(Debug)]
pub struct GameProfile {
    pub id: u128,
    pub name: String,
    pub properties: Vec<GameProfileProperty>,
}

/// A property as read: its strings as UTF-8 bytes.
pub ghost struct PropertyBytes {
    pub name: Seq<u8>,
    pub value: Seq<u8>,
    pub signature: Option<Seq<u8>>,
}

/// A profile as read: its strings as UTF-8 bytes.
pub ghost struct ProfileBytes {
    pub id: u128,
    pub name: Seq<u8>,
    pub properties: Seq<PropertyBytes>,
}

/// `p` holds the strings that `v` has the bytes of.
pub open spec fn property_is(p: GameProfileProperty, v: PropertyBytes) -> bool {
    &&& utf8_bytes(p.name@) == v.name
    &&& utf8_bytes(p.value@) == v.value
    &&& match p.signature {
        None => v.signature is None,
        Some(sig) => v.signature == Some(utf8_bytes(sig@)),
    }
}

/// `p` is the profile that `v` has the bytes of.
#[verifier::opaque]
pub open spec fn profile_is(p: GameProfile, v: ProfileBytes) -> bool {
    &&& p.id == v.id
    &&& utf8_bytes(p.name@) == v.name
    &&& p.properties@.len() == v.properties.len()
    &&& forall|i: int|
        0 <= i < v.properties.len() ==> property_is(#[trigger] p.properties@[i], v.properties[i])
}

/// What reading a property from the start of `s` gives: name, value, then an optional
/// signature (a boolean byte, then the string when it is set).
pub open spec fn spec_read_property(s: Seq<u8>) -> Result<(PropertyBytes, nat), ErrorKind> {
    match spec_read_string(s, STRING_DEFAULT_CAP) {
        Err(e) => Err(e),
        Ok((name, k1)) => match spec_read_string(s.skip(k1 as int), STRING_DEFAULT_CAP) {
            Err(e) => Err(e),
            Ok((value, k2)) => {
                let k = k1 + k2;
                if k >= s.len() {
                    Err(ErrorKind::EndOfInput)
                } else if s[k as int] == 0 {
                    Ok((PropertyBytes { name, value, signature: None }, (k + 1) as nat))
                } else {
                    match spec_read_string(s.skip((k + 1) as int), STRING_DEFAULT_CAP) {
                        Err(e) => Err(e),
                        Ok((sig, k3)) => Ok(
                            (PropertyBytes { name, value, signature: Some(sig) }, (k + 1 + k3) as nat),
                        ),
                    }
                }
            },
        },
    }
}

/// What reading `n` properties one after the other from the start of `s` gives.
pub open spec fn spec_read_properties(s: Seq<u8>, n: nat) -> Result<(Seq<PropertyBytes>, nat), ErrorKind>
    decreases n,
{
    if n == 0 {
        Ok((seq![], 0))
    } else {
        match spec_read_property(s) {
            Err(e) => Err(e),
            Ok((p, k)) => match spec_read_properties(s.skip(k as int), (n - 1) as nat) {
                Err(e) => Err(e),
                Ok((ps, k2)) => Ok((seq![p] + ps, k + k2)),
            },
        }
    }
}

/// What reading a profile from the start of `s` gives: uuid, name, then a counted list of
/// properties; a negative count is refused as the end of input.
#[verifier::opaque]
pub open spec fn spec_read_profile(s: Seq<u8>) -> Result<(ProfileBytes, nat), ErrorKind> {
    if s.len() < 16 {
        Err(ErrorKind::EndOfInput)
    } else {
        match spec_read_string(s.skip(16), STRING_DEFAULT_CAP) {
            Err(e) => Err(e),
            Ok((name, k1)) => match spec_read_var_int(s.skip((16 + k1) as int)) {
                Err(e) => Err(e),
                Ok((count, k2)) => if count < 0 {
                    Err(ErrorKind::EndOfInput)
                } else {
                    match spec_read_properties(s.skip((16 + k1 + k2) as int), count as nat) {
                        Err(e) => Err(e),
                        Ok((props, k3)) => Ok(
                            (
                                ProfileBytes {
                                    id: uuid_value(s.subrange(0, 16)),
                                    name,
                                    properties: props,
                                },
                                16 + k1 + k2 + k3,
                            ),
                        ),
                    }
                },
            },
        }
    }
}

/// Reads a property at `pos`.
pub fn read_property(buf: &[u8], pos: usize) -> (r: Result<(GameProfileProperty, usize), TransportError>)
    requires
        pos <= buf@.len(),
    ensures
        match spec_read_property(buf@.skip(pos as int)) {
            Ok((v, k)) => r matches Ok((p, q)) && property_is(p, v) && q == pos + k,
            Err(e) => r matches Err(err) && err.kind() == e,
        },
{
    let ghost s = buf@.skip(pos as int);
    assert(s.len() == buf@.len() - pos);
    let (name, p1) = read_string(buf, pos, STRING_DEFAULT_CAP)?;
    assert(s.skip((p1 - pos) as int) =~= buf@.skip(p1 as int));
    let (value, p2) = read_string(buf, p1, STRING_DEFAULT_CAP)?;
    assert(s.skip((p2 - pos) as int) =~= buf@.skip(p2 as int));
    let blen = buf.len();
    let (present, p3) = read_bool(buf, p2)?;
    assert(s[(p2 - pos) as int] == buf@[p2 as int]);
    if !present {
        return Ok((GameProfileProperty { name, value, signature: None }, p3));
    }
    assert(s.skip((p3 - pos) as int) =~= buf@.skip(p3 as int));
    let (sig, p4) = read_string(buf, p3, STRING_DEFAULT_CAP)?;
    Ok((GameProfileProperty { name, value, signature: Some(sig) }, p4))
}

/// Reads `n` properties one after the other at `pos`.
#[verifier::rlimit(40)]
pub fn read_properties(buf: &[u8], pos: usize, n: usize) -> (r: Result<(Vec<GameProfileProperty>, usize), TransportError>)
    requires
        pos <= buf@.len(),
    ensures
        match spec_read_properties(buf@.skip(pos as int), n as nat) {
            Ok((v, k)) => r matches Ok((ps, q)) && ps@.len() == v.len() && q == pos + k && forall|
                i: int,
            | 0 <= i < v.len() ==> property_is(#[trigger] ps@[i], v[i]),
            Err(e) => r matches Err(err) && err.kind() == e,
        },
        r matches Ok((_, q)) ==> pos <= q <= buf@.len(),
{
    let ghost s = buf@.skip(pos as int);
    let mut out: Vec<GameProfileProperty> = Vec::new();
    let mut at: usize = pos;
    let mut i: usize = 0;
    while i < n
        invariant
            i <= n,
            pos <= at <= buf@.len(),
            s == buf@.skip(pos as int),
            out@.len() == i,
            match spec_read_properties(s, n as nat) {
                Ok((v, k)) => match spec_read_properties(buf@.skip(at as int), (n - i) as nat) {
                    Ok((rest, k2)) => v == Seq::new(i as nat, |j: int| v[j]) + rest && k == (at - pos)
                        + k2 && forall|j: int| 0 <= j < i ==> property_is(#[trigger] out@[j], v[j]),
                    Err(_) => false,
                },
                Err(e) => spec_read_properties(buf@.skip(at as int), (n - i) as nat) == Err::<
                    (Seq<PropertyBytes>, nat),
                    ErrorKind,
                >(e),
            },
        decreases n - i,
    {
        let ghost t = buf@.skip(at as int);
        let (p, next) = match read_property(buf, at) {
            Ok(x) => x,
            Err(e) => {
                return Err(e);
            },
        };
        proof {
            assert(t.skip((next - at) as int) =~= buf@.skip(next as int));
            let pv = spec_read_property(t)->Ok_0.0;
            match spec_read_properties(s, n as nat) {
                Ok((v, k)) => {
                    let rest = spec_read_properties(t, (n - i) as nat)->Ok_0.0;
                    let rest2 = spec_read_properties(buf@.skip(next as int), (n - i - 1) as nat)->Ok_0.0;
                    assert(rest == seq![pv] + rest2);
                    assert(v[i as int] == pv);
                    assert(Seq::new((i + 1) as nat, |j: int| v[j]) + rest2 =~= Seq::new(
                        i as nat,
                        |j: int| v[j],
                    ) + (seq![pv] + rest2));
                },
                Err(e) => {},
            }
        }
        out.push(p);
        at = next;
        i = i + 1;
    }
    proof {
        match spec_read_properties(s, n as nat) {
            Ok((v, k)) => {
                assert(v =~= Seq::new(n as nat, |j: int| v[j]));
            },
            Err(e) => {},
        }
    }
    Ok((out, at))
}

/// Reads a profile at `pos`.
pub fn read_profile(buf: &[u8], pos: usize) -> (r: Result<(GameProfile, usize), TransportError>)
    requires
        pos <= buf@.len(),
    ensures
        match spec_read_profile(buf@.skip(pos as int)) {
            Ok((v, k)) => r matches Ok((p, q)) && profile_is(p, v) && q == pos + k,
            Err(e) => r matches Err(err) && err.kind() == e,
        },
        r matches Ok((_, q)) ==> pos <= q <= buf@.len(),
{
    reveal(spec_read_profile);
    reveal(profile_is);
    let ghost s = buf@.skip(pos as int);
    assert(s.len() == buf@.len() - pos);
    let blen = buf.len();
    let (id, p1) = read_uuid(buf, pos)?;
    assert(p1 == pos + 16);
    assert(s.subrange(0, 16) =~= buf@.subrange(pos as int, pos + 16));
    assert(s.skip(16) =~= buf@.skip(p1 as int));
    let (name, p2) = read_string(buf, p1, STRING_DEFAULT_CAP)?;
    assert(s.skip((p2 - pos) as int) =~= buf@.skip(p2 as int));
    proof {
        lemma_scan_range(buf@.skip(p2 as int), 0, 5);
    }
    let (count, p3) = read_var_int(buf, p2)?;
    if count < 0 {
        return Err(TransportError::EndOfInput);
    }
    assert(s.skip((p3 - pos) as int) =~= buf@.skip(p3 as int));
    let (properties, p4) = read_properties(buf, p3, count as usize)?;
    Ok((GameProfile { id, name, properties }, p4))
}

/// A player's chat signing key.
#[derive(Debug)]
pub struct ProfilePublicKey {
    pub expiry: u64,
    pub encoded_key: Vec<u8>,
    pub key_sig: Vec<u8>,
}

/// A player's chat session.
#[derive(Debug)]
pub struct RemoteChatSession {
    pub session_id: u128,
    pub key: ProfilePublicKey,
}

/// One player's entry of a player info update; each field is present when its action is.
/// The display name is carried as its JSON text.
#[derive(Debug)]
pub struct PlayerInfoEntry {
    pub profile_id: u128,
    pub profile: Option<GameProfile>,
    pub latency: Option<i32>,
    pub listed: Option<bool>,
    pub game_mode: Option<i32>,
    pub display_name: Option<Vec<u8>>,
    pub chat_session: Option<RemoteChatSession>,
}

impl PlayerInfoEntry {
    /// An entry for `profile_id` with nothing present.
    pub fn new(profile_id: u128) -> (r: Self)
        ensures
            r.profile_id == profile_id,
            r.profile is None && r.latency is None && r.listed is None && r.game_mode is None
                && r.display_name is None && r.chat_session is None,
    {
        PlayerInfoEntry {
            profile_id,
            profile: None,
            latency: None,
            listed: None,
            game_mode: None,
            display_name: None,
            chat_session: None,
        }
    }
}

/// The actions of a player info update, in bit order.
#[derive(Debug, Copy, Clone, PartialEq, Eq, Structural)]
pub enum PlayerInfoAction {
    AddPlayer,
    InitializeChat,
    UpdateGameMode,
    UpdateListed,
    UpdateLatency,
    UpdateDisplayName,
}

/// A string as drax's default string codec writes it: refused beyond the default cap.
pub open spec fn string_result(s: Seq<char>) -> Result<Seq<u8>, ErrorKind> {
    if utf8_bytes(s).len() > STRING_DEFAULT_CAP {
        Err(ErrorKind::LimitExceeded(STRING_DEFAULT_CAP, utf8_bytes(s).len() as i32))
    } else {
        Ok(spec_string(s))
    }
}

/// `a` then `b`, or the first failure.
pub open spec fn then_bytes(a: Result<Seq<u8>, ErrorKind>, b: Result<Seq<u8>, ErrorKind>) -> Result<Seq<u8>, ErrorKind> {
    match a {
        Err(e) => Err(e),
        Ok(x) => match b {
            Err(e) => Err(e),
            Ok(y) => Ok(x + y),
        },
    }
}

/// A property: name, value, then the signature as an optional string.
pub open spec fn property_result(p: GameProfileProperty) -> Result<Seq<u8>, ErrorKind> {
    then_bytes(
        then_bytes(string_result(p.name@), string_result(p.value@)),
        match p.signature {
            None => Ok(seq![0u8]),
            Some(sig) => then_bytes(Ok(seq![1u8]), string_result(sig@)),
        },
    )
}

/// Properties one after the other.
pub open spec fn properties_result(ps: Seq<GameProfileProperty>) -> Result<Seq<u8>, ErrorKind>
    decreases ps.len(),
{
    if ps.len() == 0 {
        Ok(seq![])
    } else {
        then_bytes(properties_result(ps.drop_last()), property_result(ps.last()))
    }
}

/// The strings of a profile are short enough for their byte lengths to fit an `i32`.
pub open spec fn property_fits(p: GameProfileProperty) -> bool {
    &&& utf8_bytes(p.name@).len() <= i32::MAX
    &&& utf8_bytes(p.value@).len() <= i32::MAX
    &&& p.signature matches Some(sig) ==> utf8_bytes(sig@).len() <= i32::MAX
}

pub open spec fn profile_fits(p: GameProfile) -> bool {
    &&& utf8_bytes(p.name@).len() <= i32::MAX
    &&& p.properties@.len() <= i32::MAX
    &&& forall|i: int| 0 <= i < p.properties@.len() ==> property_fits(#[trigger] p.properties@[i])
}

/// The add-player section: the name, then the properties as a counted list.
pub open spec fn profile_result(p: GameProfile) -> Result<Seq<u8>, ErrorKind> {
    then_bytes(
        string_result(p.name@),
        then_bytes(Ok(spec_var_int(p.properties@.len() as i32)), properties_result(p.properties@)),
    )
}

/// The initialize-chat section: session uuid, key expiry, key and key signature.
pub open spec fn chat_session_bytes(c: RemoteChatSession) -> Seq<u8> {
    uuid_bytes(c.session_id) + be_bytes(c.key.expiry as nat, 8) + spec_byte_vec(c.key.encoded_key@)
        + spec_byte_vec(c.key.key_sig@)
}

/// The section of action `i` for `entry`, or why it cannot be written.
pub open spec fn action_section(i: int, entry: PlayerInfoEntry) -> Result<Seq<u8>, ErrorKind> {
    if i == 0 {
        match entry.profile {
            Some(p) => profile_result(p),
            None => Err(ErrorKind::Explain("Missing profile with add player bit set."@)),
        }
    } else if i == 1 {
        match entry.chat_session {
            Some(c) => Ok(chat_session_bytes(c)),
            None => Err(ErrorKind::Explain("Missing chat session with initialize chat bit set."@)),
        }
    } else if i == 2 {
        match entry.game_mode {
            Some(g) => Ok(spec_var_int(g)),
            None => Err(ErrorKind::Explain("Missing game mode with update game mode bit set."@)),
        }
    } else if i == 3 {
        match entry.listed {
            Some(b) => Ok(spec_bool(b)),
            None => Err(ErrorKind::Explain("Missing listed with update listed bit set."@)),
        }
    } else if i == 4 {
        match entry.latency {
            Some(l) => Ok(spec_var_int(l)),
            None => Err(ErrorKind::Explain("Missing latency with update latency bit set."@)),
        }
    } else {
        match entry.display_name {
            None => Ok(seq![0u8]),
            Some(json) => Ok(seq![1u8] + spec_byte_vec(json@)),
        }
    }
}

/// The sections of the first `n` actions whose bits are set in `actions`, in bit order.
pub open spec fn actions_result(actions: BitSet, entry: PlayerInfoEntry, n: int) -> Result<Seq<u8>, ErrorKind>
    decreases n,
{
    if n <= 0 {
        Ok(seq![])
    } else if actions.bit(n - 1) {
        then_bytes(actions_result(actions, entry, n - 1), action_section(n - 1, entry))
    } else {
        actions_result(actions, entry, n - 1)
    }
}

/// What writing an entry's action sections gives: the consistency failure of the action set,
/// or the sections of the actions set, or the first section that cannot be written.
pub open spec fn spec_encode_actions(actions: BitSet, entry: PlayerInfoEntry) -> Result<Seq<u8>, ErrorKind> {
    if !actions.invariants_hold() {
        Err(ErrorKind::Explain(invariant_error(actions.storage(), actions.in_use())))
    } else {
        actions_result(actions, entry, 6)
    }
}

/// What a writer that stops at its first failure leaves: the bytes it wrote, and the failure
/// if there was one.
pub open spec fn then_stream(a: (Seq<u8>, Option<ErrorKind>), b: (Seq<u8>, Option<ErrorKind>)) -> (Seq<u8>, Option<ErrorKind>) {
    if a.1 is Some {
        a
    } else {
        (a.0 + b.0, b.1)
    }
}

/// A piece written whole or not at all.
pub open spec fn whole(r: Result<Seq<u8>, ErrorKind>) -> (Seq<u8>, Option<ErrorKind>) {
    match r {
        Ok(b) => (b, None),
        Err(e) => (seq![], Some(e)),
    }
}

/// A property as it is written: each string whole, stopping at the first refused.
pub open spec fn property_stream(p: GameProfileProperty) -> (Seq<u8>, Option<ErrorKind>) {
    then_stream(
        then_stream(whole(string_result(p.name@)), whole(string_result(p.value@))),
        match p.signature {
            None => (seq![0u8], None),
            Some(sig) => then_stream((seq![1u8], None), whole(string_result(sig@))),
        },
    )
}

/// Properties as they are written, one after the other.
pub open spec fn properties_stream(ps: Seq<GameProfileProperty>) -> (Seq<u8>, Option<ErrorKind>)
    decreases ps.len(),
{
    if ps.len() == 0 {
        (seq![], None)
    } else {
        then_stream(properties_stream(ps.drop_last()), property_stream(ps.last()))
    }
}

/// The add-player section as it is written: the name, the count, then the properties.
pub open spec fn profile_stream(p: GameProfile) -> (Seq<u8>, Option<ErrorKind>) {
    then_stream(
        whole(string_result(p.name@)),
        then_stream((spec_var_int(p.properties@.len() as i32), None), properties_stream(p.properties@)),
    )
}

/// The section of action `i` as it is written: the add-player section string by string, the
/// others whole.
pub open spec fn section_stream(i: int, entry: PlayerInfoEntry) -> (Seq<u8>, Option<ErrorKind>) {
    if i == 0 {
        match entry.profile {
            Some(p) => profile_stream(p),
            None => whole(action_section(0, entry)),
        }
    } else {
        whole(action_section(i, entry))
    }
}

/// The sections of the first `n` actions as they are written.
pub open spec fn actions_stream(actions: BitSet, entry: PlayerInfoEntry, n: int) -> (Seq<u8>, Option<ErrorKind>)
    decreases n,
{
    if n <= 0 {
        (seq![], None)
    } else if actions.bit(n - 1) {
        then_stream(actions_stream(actions, entry, n - 1), section_stream(n - 1, entry))
    } else {
        actions_stream(actions, entry, n - 1)
    }
}

/// What writing an entry's action sections leaves on the writer, and its failure: nothing
/// when the action set fails its consistency checks, else the sections up to the first piece
/// that cannot be written.
pub open spec fn spec_encode_stream(actions: BitSet, entry: PlayerInfoEntry) -> (Seq<u8>, Option<ErrorKind>) {
    if !actions.invariants_hold() {
        (seq![], Some(ErrorKind::Explain(invariant_error(actions.storage(), actions.in_use()))))
    } else {
        actions_stream(actions, entry, 6)
    }
}

/// A stream agrees with a result: the same bytes when it succeeds, the same failure when not.
pub open spec fn stream_agrees(st: (Seq<u8>, Option<ErrorKind>), r: Result<Seq<u8>, ErrorKind>) -> bool {
    &&& r matches Ok(b) ==> st == (b, Option::<ErrorKind>::None)
    &&& r matches Err(e) ==> st.1 == Some(e)
}

proof fn lemma_then_agrees(a: (Seq<u8>, Option<ErrorKind>), ra: Result<Seq<u8>, ErrorKind>, b: (Seq<u8>, Option<ErrorKind>), rb: Result<Seq<u8>, ErrorKind>)
    requires
        stream_agrees(a, ra),
        stream_agrees(b, rb),
    ensures
        stream_agrees(then_stream(a, b), then_bytes(ra, rb)),
{
}

proof fn lemma_properties_agree(ps: Seq<GameProfileProperty>)
    ensures
        stream_agrees(properties_stream(ps), properties_result(ps)),
    decreases ps.len(),
{
    if ps.len() > 0 {
        lemma_properties_agree(ps.drop_last());
        let p = ps.last();
        lemma_then_agrees(
            whole(string_result(p.name@)),
            string_result(p.name@),
            whole(string_result(p.value@)),
            string_result(p.value@),
        );
        match p.signature {
            None => {},
            Some(sig) => {
                lemma_then_agrees((seq![1u8], None), Ok(seq![1u8]), whole(string_result(sig@)), string_result(sig@));
            },
        }
        lemma_then_agrees(
            then_stream(whole(string_result(p.name@)), whole(string_result(p.value@))),
            then_bytes(string_result(p.name@), string_result(p.value@)),
            match p.signature {
                None => (seq![0u8], None),
                Some(sig) => then_stream((seq![1u8], None), whole(string_result(sig@))),
            },
            match p.signature {
                None => Ok(seq![0u8]),
                Some(sig) => then_bytes(Ok(seq![1u8]), string_result(sig@)),
            },
        );
        lemma_then_agrees(properties_stream(ps.drop_last()), properties_result(ps.drop_last()), property_stream(p), property_result(p));
    }
}

proof fn lemma_actions_agree(actions: BitSet, entry: PlayerInfoEntry, n: int)
    ensures
        stream_agrees(actions_stream(actions, entry, n), actions_result(actions, entry, n)),
    decreases n,
{
    if n > 0 {
        lemma_actions_agree(actions, entry, n - 1);
        if n - 1 == 0 {
            if let Some(p) = entry.profile {
                lemma_properties_agree(p.properties@);
                lemma_then_agrees(
                    (spec_var_int(p.properties@.len() as i32), None),
                    Ok(spec_var_int(p.properties@.len() as i32)),
                    properties_stream(p.properties@),
                    properties_result(p.properties@),
                );
                lemma_then_agrees(
                    whole(string_result(p.name@)),
                    string_result(p.name@),
                    then_stream((spec_var_int(p.properties@.len() as i32), None), properties_stream(p.properties@)),
                    then_bytes(Ok(spec_var_int(p.properties@.len() as i32)), properties_result(p.properties@)),
                );
            }
        }
        assert(stream_agrees(section_stream(n - 1, entry), action_section(n - 1, entry)));
        lemma_then_agrees(
            actions_stream(actions, entry, n - 1),
            actions_result(actions, entry, n - 1),
            section_stream(n - 1, entry),
            action_section(n - 1, entry),
        );
    }
}

/// The fields an entry's sections write are small enough to be counted in an `i32`.
pub open spec fn entry_fits(entry: PlayerInfoEntry) -> bool {
    &&& entry.profile matches Some(p) ==> profile_fits(p)
    &&& entry.chat_session matches Some(c) ==> c.key.encoded_key@.len() <= i32::MAX
        && c.key.key_sig@.len() <= i32::MAX
    &&& entry.display_name matches Some(j) ==> j@.len() <= i32::MAX
}

/// The bytes a result holds as an outcome: the bytes, or the kind of the error.
pub open spec fn bytes_outcome(r: Result<Vec<u8>, TransportError>) -> Result<Seq<u8>, ErrorKind> {
    match r {
        Ok(v) => Ok(v@),
        Err(e) => Err(e.kind()),
    }
}

pub(crate) fn append(out: &mut Vec<u8>, bytes: &Vec<u8>)
    ensures
        final(out)@ == old(out)@ + bytes@,
{
    crate::encoding::append_bytes(out, bytes.as_slice());
}

pub(crate) fn string_bytes(s: &String) -> (r: Result<Vec<u8>, TransportError>)
    requires
        utf8_bytes(s@).len() <= i32::MAX,
    ensures
        bytes_outcome(r) == string_result(s@),
{
    let mut out: Vec<u8> = Vec::new();
    match write_string(&mut out, s.as_str(), STRING_DEFAULT_CAP) {
        Ok(()) => {
            assert(out@ =~= spec_string(s@));
            Ok(out)
        },
        Err(e) => Err(e),
    }
}

fn property_bytes(p: &GameProfileProperty) -> (r: Result<Vec<u8>, TransportError>)
    requires
        property_fits(*p),
    ensures
        bytes_outcome(r) == property_result(*p),
{
    let mut out = string_bytes(&p.name)?;
    let value = string_bytes(&p.value)?;
    append(&mut out, &value);
    match &p.signature {
        None => {
            out.push(0);
        },
        Some(sig) => {
            out.push(1);
            let sb = string_bytes(sig)?;
            append(&mut out, &sb);
        },
    }
    assert(out@ =~= property_result(*p)->Ok_0);
    Ok(out)
}

fn profile_bytes(p: &GameProfile) -> (r: Result<Vec<u8>, TransportError>)
    requires
        profile_fits(*p),
    ensures
        bytes_outcome(r) == profile_result(*p),
{
    let mut out = string_bytes(&p.name)?;
    write_var_int(&mut out, p.properties.len() as i32);
    let ghost head = out@;
    let mut props: Vec<u8> = Vec::new();
    let mut i: usize = 0;
    while i < p.properties.len()
        invariant
            i <= p.properties@.len(),
            profile_fits(*p),
            string_result(p.name@) is Ok,
            properties_result(p.properties@.subrange(0, i as int)) == Ok::<Seq<u8>, ErrorKind>(props@),
        decreases p.properties@.len() - i,
    {
        assert(p.properties@.subrange(0, i + 1).drop_last() == p.properties@.subrange(0, i as int));
        assert(property_fits(p.properties@[i as int]));
        let pb = match property_bytes(&p.properties[i]) {
            Ok(b) => b,
            Err(e) => {
                proof {
                    lemma_properties_err_extends(p.properties@, i as int + 1);
                }
                return Err(e);
            },
        };
        append(&mut props, &pb);
        i = i + 1;
    }
    assert(p.properties@.subrange(0, p.properties@.len() as int) == p.properties@);
    append(&mut out, &props);
    assert(out@ =~= profile_result(*p)->Ok_0);
    Ok(out)
}

/// Once writing the properties has failed, more properties do not change the failure.
proof fn lemma_properties_err_extends(ps: Seq<GameProfileProperty>, j: int)
    requires
        0 <= j <= ps.len(),
        properties_result(ps.subrange(0, j)) is Err,
    ensures
        properties_result(ps) == properties_result(ps.subrange(0, j)),
    decreases ps.len() - j,
{
    if j < ps.len() {
        assert(ps.subrange(0, j + 1).drop_last() == ps.subrange(0, j));
        lemma_properties_err_extends(ps, j + 1);
    } else {
        assert(ps.subrange(0, j) == ps);
    }
}

/// `after` is `before` with the stream's bytes appended, and `r` reports the stream's failure.
pub open spec fn streamed(before: Seq<u8>, after: Seq<u8>, st: (Seq<u8>, Option<ErrorKind>), r: Result<(), TransportError>) -> bool {
    &&& after == before + st.0
    &&& (r is Ok <==> st.1 is None)
    &&& r matches Err(x) ==> st.1 == Some(x.kind())
}

fn write_text(out: &mut Vec<u8>, s: &String) -> (r: Result<(), TransportError>)
    requires
        utf8_bytes(s@).len() <= i32::MAX,
    ensures
        streamed(old(out)@, final(out)@, whole(string_result(s@)), r),
{
    let r = write_string(out, s.as_str(), STRING_DEFAULT_CAP);
    proof {
        if r is Err {
            assert(final(out)@ =~= old(out)@ + Seq::<u8>::empty());
        }
    }
    r
}

fn write_property(out: &mut Vec<u8>, p: &GameProfileProperty) -> (r: Result<(), TransportError>)
    requires
        property_fits(*p),
    ensures
        streamed(old(out)@, final(out)@, property_stream(*p), r),
{
    let ghost o = out@;
    match write_text(out, &p.name) {
        Ok(()) => {},
        Err(e) => {
            return Err(e);
        },
    }
    let ghost o1 = out@;
    match write_text(out, &p.value) {
        Ok(()) => {},
        Err(e) => {
            assert(out@ =~= o + then_stream(whole(string_result(p.name@)), whole(string_result(p.value@))).0);
            return Err(e);
        },
    }
    let ghost o2 = out@;
    let ghost head = then_stream(whole(string_result(p.name@)), whole(string_result(p.value@)));
    assert(o2 =~= o + head.0);
    match &p.signature {
        None => {
            out.push(0);
            assert(out@ =~= o + property_stream(*p).0);
            Ok(())
        },
        Some(sig) => {
            out.push(1);
            let ghost o3 = out@;
            match write_text(out, sig) {
                Ok(()) => {
                    assert(out@ =~= o + property_stream(*p).0);
                    Ok(())
                },
                Err(e) => {
                    assert(out@ =~= o + property_stream(*p).0);
                    Err(e)
                },
            }
        },
    }
}

fn write_profile(out: &mut Vec<u8>, p: &GameProfile) -> (r: Result<(), TransportError>)
    requires
        profile_fits(*p),
    ensures
        streamed(old(out)@, final(out)@, profile_stream(*p), r),
{
    let ghost o = out@;
    match write_text(out, &p.name) {
        Ok(()) => {},
        Err(e) => {
            return Err(e);
        },
    }
    write_var_int(out, p.properties.len() as i32);
    let ghost o1 = out@;
    assert(p.properties@.subrange(0, 0) =~= Seq::<GameProfileProperty>::empty());
    let mut i: usize = 0;
    while i < p.properties.len()
        invariant
            i <= p.properties@.len(),
            profile_fits(*p),
            string_result(p.name@) is Ok,
            o == old(out)@,
            o1 == o + spec_string(p.name@) + spec_var_int(p.properties@.len() as i32),
            properties_stream(p.properties@.subrange(0, i as int)).1 is None,
            out@ == o1 + properties_stream(p.properties@.subrange(0, i as int)).0,
        decreases p.properties@.len() - i,
    {
        let ghost before = out@;
        assert(p.properties@.subrange(0, i + 1).drop_last() == p.properties@.subrange(0, i as int));
        assert(property_fits(p.properties@[i as int]));
        let res = write_property(out, &p.properties[i]);
        assert(out@ =~= o1 + properties_stream(p.properties@.subrange(0, i + 1)).0);
        match res {
            Ok(()) => {},
            Err(e) => {
                proof {
                    lemma_properties_stream_stops(p.properties@, i as int + 1);
                    assert(out@ =~= o + profile_stream(*p).0);
                }
                return Err(e);
            },
        }
        i = i + 1;
    }
    assert(p.properties@.subrange(0, p.properties@.len() as int) == p.properties@);
    assert(out@ =~= o + profile_stream(*p).0);
    Ok(())
}

/// Once writing the properties has stopped, more properties write nothing more.
proof fn lemma_properties_stream_stops(ps: Seq<GameProfileProperty>, j: int)
    requires
        0 <= j <= ps.len(),
        properties_stream(ps.subrange(0, j)).1 is Some,
    ensures
        properties_stream(ps) == properties_stream(ps.subrange(0, j)),
    decreases ps.len() - j,
{
    if j < ps.len() {
        assert(ps.subrange(0, j + 1).drop_last() == ps.subrange(0, j));
        lemma_properties_stream_stops(ps, j + 1);
    } else {
        assert(ps.subrange(0, j) == ps);
    }
}

/// Once writing the action sections has stopped, the later actions write nothing more.
proof fn lemma_actions_stream_stops(actions: BitSet, entry: PlayerInfoEntry, j: int)
    requires
        0 <= j <= 6,
        actions_stream(actions, entry, j).1 is Some,
    ensures
        actions_stream(actions, entry, 6) == actions_stream(actions, entry, j),
    decreases 6 - j,
{
    if j < 6 {
        lemma_actions_stream_stops(actions, entry, j + 1);
    }
}

fn action_bytes(i: i32, entry: &PlayerInfoEntry) -> (r: Result<Vec<u8>, TransportError>)
    requires
        0 <= i < 6,
        entry_fits(*entry),
    ensures
        bytes_outcome(r) == action_section(i as int, *entry),
{
    let mut out: Vec<u8> = Vec::new();
    if i == 0 {
        match &entry.profile {
            Some(profile) => profile_bytes(profile),
            None => Err(TransportError::Explain(String::from_str("Missing profile with add player bit set."))),
        }
    } else if i == 1 {
        match &entry.chat_session {
            Some(chat_session) => {
                write_uuid(&mut out, chat_session.session_id);
                write_be(&mut out, chat_session.key.expiry, 8);
                write_byte_vec(&mut out, chat_session.key.encoded_key.as_slice());
                write_byte_vec(&mut out, chat_session.key.key_sig.as_slice());
                assert(out@ =~= chat_session_bytes(*chat_session));
                Ok(out)
            },
            None => Err(
                TransportError::Explain(
                    String::from_str("Missing chat session with initialize chat bit set."),
                ),
            ),
        }
    } else if i == 2 {
        match entry.game_mode {
            Some(game_mode) => {
                write_var_int(&mut out, game_mode);
                assert(out@ =~= spec_var_int(game_mode));
                Ok(out)
            },
            None => Err(
                TransportError::Explain(
                    String::from_str("Missing game mode with update game mode bit set."),
                ),
            ),
        }
    } else if i == 3 {
        match entry.listed {
            Some(listed) => {
                write_bool(&mut out, listed);
                assert(out@ =~= spec_bool(listed));
                Ok(out)
            },
            None => Err(
                TransportError::Explain(String::from_str("Missing listed with update listed bit set.")),
            ),
        }
    } else if i == 4 {
        match entry.latency {
            Some(latency) => {
                write_var_int(&mut out, latency);
                assert(out@ =~= spec_var_int(latency));
                Ok(out)
            },
            None => Err(
                TransportError::Explain(String::from_str("Missing latency with update latency bit set.")),
            ),
        }
    } else {
        match &entry.display_name {
            None => {
                out.push(0);
                assert(out@ =~= seq![0u8]);
                Ok(out)
            },
            Some(json) => {
                out.push(1);
                write_byte_vec(&mut out, json.as_slice());
                assert(out@ =~= seq![1u8] + spec_byte_vec(json@));
                Ok(out)
            },
        }
    }
}

impl PlayerInfoAction {
    /// Writes the sections of the actions set in `in_set` for `entry`, in bit order, straight
    /// onto `out`: refused when the set fails its consistency checks (nothing written), or at
    /// the first piece that cannot be written (a set action's field missing, the display name
    /// excepted, or a string too long), with what came before it left written.
    pub fn encode(in_set: &BitSet, entry: &PlayerInfoEntry, out: &mut Vec<u8>) -> (r: Result<(), TransportError>)
        requires
            in_set.in_bounds(),
            entry_fits(*entry),
        ensures
            streamed(old(out)@, final(out)@, spec_encode_stream(*in_set, *entry), r),
            match spec_encode_actions(*in_set, *entry) {
                Ok(b) => r is Ok && final(out)@ == old(out)@ + b,
                Err(e) => r matches Err(x) && x.kind() == e,
            },
    {
        let ghost o = out@;
        let mut i: i32 = 0;
        while i < 6
            invariant
                0 <= i <= 6,
                in_set.in_bounds(),
                entry_fits(*entry),
                o == old(out)@,
                in_set.invariants_hold() || i == 0,
                i > 0 ==> actions_stream(*in_set, *entry, i as int).1 is None && out@ == o
                    + actions_stream(*in_set, *entry, i as int).0,
                i == 0 ==> out@ == o,
            decreases 6 - i,
        {
            let set = match in_set.get(i) {
                Ok(b) => b,
                Err(e) => {
                    proof {
                        lemma_actions_agree(*in_set, *entry, 6);
                        assert(out@ =~= o + Seq::<u8>::empty());
                    }
                    return Err(e);
                },
            };
            if set {
                let ghost before = out@;
                let res: Result<(), TransportError> = if i == 0 && entry.profile.is_some() {
                    match &entry.profile {
                        Some(p) => write_profile(out, p),
                        None => Ok(()),
                    }
                } else {
                    match action_bytes(i, entry) {
                        Ok(b) => {
                            append(out, &b);
                            Ok(())
                        },
                        Err(e) => Err(e),
                    }
                };
                proof {
                    assert(streamed(before, out@, section_stream(i as int, *entry), res));
                    if i == 0 {
                        assert(actions_stream(*in_set, *entry, 0) == (Seq::<u8>::empty(), Option::<ErrorKind>::None));
                    }
                    assert(out@ =~= o + actions_stream(*in_set, *entry, i + 1).0);
                }
                match res {
                    Ok(()) => {},
                    Err(e) => {
                        proof {
                            lemma_actions_stream_stops(*in_set, *entry, i as int + 1);
                            lemma_actions_agree(*in_set, *entry, 6);
                        }
                        return Err(e);
                    },
                }
            } else {
                proof {
                    if i == 0 {
                        assert(actions_stream(*in_set, *entry, 0) == (Seq::<u8>::empty(), Option::<ErrorKind>::None));
                        assert(out@ =~= o + actions_stream(*in_set, *entry, 1).0);
                    }
                }
            }
            i = i + 1;
        }
        proof {
            lemma_actions_agree(*in_set, *entry, 6);
        }
        Ok(())
    }

    /// Number of bytes of the entry's uuid and its action sections, every string counted at its
    /// full length (sizes know no string limit); refused when the set fails its consistency
    /// checks or a set action's field is missing, or when the count exceeds `usize`.
    pub fn size(in_set: &BitSet, entry: &PlayerInfoEntry) -> (r: Result<usize, TransportError>)
        requires
            in_set.in_bounds(),
            entry_fits(*entry),
        ensures
            match spec_size_actions(*in_set, *entry) {
                Ok(n) => if 16 + n <= usize::MAX {
                    r == Ok::<usize, TransportError>((16 + n) as usize)
                } else {
                    r is Err
                },
                Err(e) => r matches Err(x) && x.kind() == e,
            },
    {
        let mut total: u128 = 0;
        let mut i: i32 = 0;
        while i < 6
            invariant
                0 <= i <= 6,
                in_set.in_bounds(),
                entry_fits(*entry),
                in_set.invariants_hold() || i == 0,
                i > 0 ==> actions_len(*in_set, *entry, i as int) == Ok::<nat, ErrorKind>(total as nat),
                i == 0 ==> total == 0,
                total <= i * SECTION_LEN_BOUND,
            decreases 6 - i,
        {
            let set = in_set.get(i)?;
            if set {
                let n = match section_size(i, entry) {
                    Ok(n) => n,
                    Err(e) => {
                        proof {
                            lemma_actions_len_err_extends(*in_set, *entry, i as int + 1);
                        }
                        return Err(e);
                    },
                };
                total = total + n;
            }
            i = i + 1;
        }
        if total > (usize::MAX - 16) as u128 {
            return Err(TransportError::Explain(String::from_str("Entry too large.")));
        }
        Ok(16 + total as usize)
    }
}

/// The number of bytes of a string's encoding.
pub open spec fn string_len(s: Seq<char>) -> nat {
    spec_string(s).len()
}

/// The number of bytes of a property's encoding, its strings at full length.
pub open spec fn property_len(p: GameProfileProperty) -> nat {
    string_len(p.name@) + string_len(p.value@) + match p.signature {
        None => 1,
        Some(sig) => 1 + string_len(sig@),
    }
}

/// The number of bytes of properties one after the other.
pub open spec fn properties_len(ps: Seq<GameProfileProperty>) -> nat
    decreases ps.len(),
{
    if ps.len() == 0 {
        0
    } else {
        properties_len(ps.drop_last()) + property_len(ps.last())
    }
}

/// The number of bytes of action `i`'s section for `entry`, strings at full length, or why it
/// has none.
pub open spec fn section_len(i: int, entry: PlayerInfoEntry) -> Result<nat, ErrorKind> {
    if i == 0 {
        match entry.profile {
            Some(p) => Ok(
                string_len(p.name@) + spec_var_int(p.properties@.len() as i32).len() + properties_len(
                    p.properties@,
                ),
            ),
            None => Err(ErrorKind::Explain("Missing profile with add player bit set."@)),
        }
    } else {
        match action_section(i, entry) {
            Ok(b) => Ok(b.len()),
            Err(e) => Err(e),
        }
    }
}

/// The number of bytes of the sections of the first `n` actions set, or the first failure.
pub open spec fn actions_len(actions: BitSet, entry: PlayerInfoEntry, n: int) -> Result<nat, ErrorKind>
    decreases n,
{
    if n <= 0 {
        Ok(0)
    } else if actions.bit(n - 1) {
        match actions_len(actions, entry, n - 1) {
            Err(e) => Err(e),
            Ok(a) => match section_len(n - 1, entry) {
                Err(e) => Err(e),
                Ok(b) => Ok(a + b),
            },
        }
    } else {
        actions_len(actions, entry, n - 1)
    }
}

/// The size of an entry's action sections: the consistency failure of the action set, the
/// first missing field, or the number of bytes.
pub open spec fn spec_size_actions(actions: BitSet, entry: PlayerInfoEntry) -> Result<nat, ErrorKind> {
    if !actions.invariants_hold() {
        Err(ErrorKind::Explain(invariant_error(actions.storage(), actions.in_use())))
    } else {
        actions_len(actions, entry, 6)
    }
}

/// A bound on a string's encoding within an `i32` byte length.
pub const STRING_LEN_BOUND: u128 = 0x8000_0005;

/// A bound on one section's size.
pub const SECTION_LEN_BOUND: u128 = 0x100_0000_0000_0000_0000;

/// Once counting the action sections has failed, the later actions do not change the failure.
proof fn lemma_actions_len_err_extends(actions: BitSet, entry: PlayerInfoEntry, j: int)
    requires
        0 <= j <= 6,
        actions_len(actions, entry, j) is Err,
    ensures
        actions_len(actions, entry, 6) == actions_len(actions, entry, j),
    decreases 6 - j,
{
    if j < 6 {
        lemma_actions_len_err_extends(actions, entry, j + 1);
    }
}

fn string_size(s: &String) -> (r: u128)
    requires
        utf8_bytes(s@).len() <= i32::MAX,
    ensures
        r == string_len(s@),
        r <= STRING_LEN_BOUND,
{
    let n = s.as_str().as_bytes().len();
    let k = size_var_int(n as i32);
    proof {
        assert(spec_string(s@) == spec_var_int(utf8_bytes(s@).len() as i32) + utf8_bytes(s@));
    }
    k as u128 + n as u128
}

fn property_size(p: &GameProfileProperty) -> (r: u128)
    requires
        property_fits(*p),
    ensures
        r == property_len(*p),
        r <= 3 * STRING_LEN_BOUND + 1,
{
    let a = string_size(&p.name);
    let b = string_size(&p.value);
    let c: u128 = match &p.signature {
        None => 1,
        Some(sig) => 1 + string_size(sig),
    };
    a + b + c
}

fn section_size(i: i32, entry: &PlayerInfoEntry) -> (r: Result<u128, TransportError>)
    requires
        0 <= i < 6,
        entry_fits(*entry),
    ensures
        match section_len(i as int, *entry) {
            Ok(n) => r matches Ok(x) && x == n,
            Err(e) => r matches Err(x) && x.kind() == e,
        },
        r matches Ok(n) ==> n <= SECTION_LEN_BOUND,
{
    if i == 0 {
        match &entry.profile {
            Some(profile) => {
                let head = string_size(&profile.name) + size_var_int(profile.properties.len() as i32) as u128;
                let mut acc: u128 = 0;
                let mut j: usize = 0;
                while j < profile.properties.len()
                    invariant
                        j <= profile.properties@.len(),
                        profile_fits(*profile),
                        acc == properties_len(profile.properties@.subrange(0, j as int)),
                        acc <= j * (3 * STRING_LEN_BOUND + 1),
                        profile.properties@.len() <= i32::MAX,
                    decreases profile.properties@.len() - j,
                {
                    let ghost before = profile.properties@.subrange(0, j as int);
                    assert(profile.properties@.subrange(0, j + 1).drop_last() =~= before);
                    assert(property_fits(profile.properties@[j as int]));
                    let n = property_size(&profile.properties[j]);
                    assert(acc + n <= (j + 1) * (3 * STRING_LEN_BOUND + 1)
                        && (j + 1) * (3 * STRING_LEN_BOUND + 1) <= 0x8000_0000 * (3 * STRING_LEN_BOUND + 1))
                        by (nonlinear_arith)
                        requires
                            acc <= j * (3 * STRING_LEN_BOUND + 1),
                            n <= 3 * STRING_LEN_BOUND + 1,
                            j < 0x8000_0000,
                    ;
                    acc = acc + n;
                    j = j + 1;
                }
                assert(profile.properties@.subrange(0, j as int) =~= profile.properties@);
                assert(acc <= 0x8000_0000 * (3 * STRING_LEN_BOUND + 1)) by (nonlinear_arith)
                    requires
                        acc <= j * (3 * STRING_LEN_BOUND + 1),
                        j <= 0x8000_0000,
                ;
                Ok(head + acc)
            },
            None => Err(TransportError::Explain(String::from_str("Missing profile with add player bit set."))),
        }
    } else {
        let b = action_bytes(i, entry)?;
        proof {
            if i == 5 {
                crate::codec::lemma_var_int_roundtrip(0, seq![]);
            }
        }
        let len = b.len();
        assert(len <= usize::MAX);
        assert(len as int <= 0xFFFF_FFFF_FFFF_FFFF);
        Ok(len as u128)
    }
}

/// How an advancement is shown: a toast, hidden, and an optional background texture.
#[derive(Debug)]
pub struct DisplayInfoFlags {
    pub show_toast: bool,
    pub hidden: bool,
    pub background: Option<String>,
}

impl DisplayInfoFlags {
    /// The flag word: 1 for a background, 2 to show a toast, 4 for hidden.
    pub open spec fn spec_flag(&self) -> i32 {
        (if self.background is Some { 1i32 } else { 0i32 }) | (if self.show_toast { 2i32 } else { 0i32 })
            | (if self.hidden { 4i32 } else { 0i32 })
    }

    /// The flag word as four big-endian bytes, then the background when there is one.
    pub open spec fn spec_result(&self) -> Result<Seq<u8>, ErrorKind> {
        then_bytes(
            Ok(be_bytes(self.spec_flag() as u32 as nat, 4)),
            match self.background {
                Some(b) => string_result(b@),
                None => Ok(seq![]),
            },
        )
    }

    /// Appends the flags; refused, with nothing appended, when the background is too long.
    pub fn encode(&self, out: &mut Vec<u8>) -> (r: Result<(), TransportError>)
        requires
            self.background matches Some(b) ==> utf8_bytes(b@).len() <= i32::MAX,
        ensures
            match self.spec_result() {
                Ok(b) => r is Ok && final(out)@ == old(out)@ + b,
                Err(e) => r matches Err(x) && x.kind() == e && final(out)@ == old(out)@,
            },
    {
        let has_background = self.background.is_some();
        let flag: i32 = (if has_background {
            1i32
        } else {
            0i32
        }) | (if self.show_toast {
            2i32
        } else {
            0i32
        }) | (if self.hidden {
            4i32
        } else {
            0i32
        });
        let mut buf: Vec<u8> = Vec::new();
        write_be(&mut buf, flag as u32 as u64, 4);
        if let Some(background) = &self.background {
            let b = string_bytes(background)?;
            append(&mut buf, &b);
        }
        append(out, &buf);
        Ok(())
    }

    /// Reads the flags: the flag word, then the background when its bit is set.
    pub fn decode(buf: &[u8], pos: usize) -> (r: Result<(DisplayInfoFlags, usize), TransportError>)
        requires
            pos <= buf@.len(),
        ensures
            pos + 4 > buf@.len() ==> (r matches Err(e) && e == TransportError::EndOfInput),
            r matches Ok((f, p)) ==> {
                let flag = crate::codec::be_value(buf@.subrange(pos as int, pos + 4)) as u64 as u32 as i32;
                &&& f.show_toast == (flag & 2 != 0)
                &&& f.hidden == (flag & 4 != 0)
                &&& (f.background is Some <==> flag & 1 != 0)
                &&& f.background matches Some(b) ==> (crate::codec::spec_read_string(
                    buf@.skip(pos + 4),
                    STRING_DEFAULT_CAP,
                ) matches Ok((bytes, k)) && utf8_bytes(b@) == bytes && p == pos + 4 + k)
                &&& f.background is None ==> p == pos + 4
            },
            pos + 4 <= buf@.len() && r is Err ==> {
                let flag = crate::codec::be_value(buf@.subrange(pos as int, pos + 4)) as u64 as u32 as i32;
                &&& flag & 1 != 0
                &&& (crate::codec::spec_read_string(buf@.skip(pos + 4), STRING_DEFAULT_CAP)
                    matches Err(e) && r->Err_0.kind() == e)
            },
    {
        let blen = buf.len();
        let (flag_word, p) = match read_be(buf, pos, 4) {
            Ok(x) => x,
            Err(e) => {
                return Err(e);
            },
        };
        assert(p == pos + 4);
        assert(buf@.skip(p as int) == buf@.skip(pos + 4));
        let flag = flag_word as u32 as i32;
        let (background, q) = if flag & 0x01 != 0 {
            match read_string(buf, p, STRING_DEFAULT_CAP) {
                Ok((b, q)) => (Some(b), q),
                Err(e) => {
                    return Err(e);
                },
            }
        } else {
            (None, p)
        };
        Ok((DisplayInfoFlags { show_toast: flag & 0x02 != 0, hidden: flag & 0x04 != 0, background }, q))
    }

    /// Four bytes, plus the background's encoding.
    pub fn size(&self) -> (r: usize)
        requires
            self.background matches Some(b) ==> utf8_bytes(b@).len() <= i32::MAX,
        ensures
            self.background matches Some(b) ==> r == 4 + spec_string(b@).len(),
            self.background is None ==> r == 4,
    {
        match &self.background {
            Some(b) => {
                let n = b.as_str().as_bytes().len();
                proof {
                    crate::codec::lemma_var_int_roundtrip(n as i32, seq![]);
                }
                4 + n + size_var_int(n as i32)
            },
            None => 4,
        }
    }
}

/// A string written through drax's default string codec.
pub struct DelegateStr;

impl DelegateStr {
    /// Appends `s` as a string; refused, with nothing appended, beyond the default cap.
    pub fn encode(s: &str, out: &mut Vec<u8>) -> (r: Result<(), TransportError>)
        requires
            utf8_bytes(s@).len() <= i32::MAX,
        ensures
            match string_result(s@) {
                Ok(b) => r is Ok && final(out)@ == old(out)@ + b,
                Err(e) => r matches Err(x) && x.kind() == e && final(out)@ == old(out)@,
            },
    {
        let owned = String::from_str(s);
        let b = string_bytes(&owned)?;
        append(out, &b);
        Ok(())
    }

    /// Number of bytes of the string's encoding.
    pub fn size(s: &str) -> (r: usize)
        requires
            utf8_bytes(s@).len() <= i32::MAX,
        ensures
            r == spec_string(s@).len(),
    {
        let n = s.as_bytes().len();
        proof {
            crate::codec::lemma_var_int_roundtrip(n as i32, seq![]);
        }
        n + size_var_int(n as i32)
    }
}

/// What reading a counted byte vector from the start of `s` gives; a negative count is one
/// the reader cannot allocate for.
pub open spec fn spec_read_vec_u8(s: Seq<u8>) -> Result<(Seq<u8>, nat), ErrorKind> {
    match spec_read_var_int(s) {
        Ok((n, _)) => if n < 0 {
            Err(ErrorKind::NegativeLength)
        } else {
            spec_read_byte_vec(s)
        },
        Err(e) => Err(e),
    }
}

fn read_vec_u8(buf: &[u8], pos: usize) -> (r: Result<(Vec<u8>, usize), TransportError>)
    requires
        pos <= buf@.len(),
        spec_read_vec_u8(buf@.skip(pos as int)) != Err::<(Seq<u8>, nat), ErrorKind>(
            ErrorKind::NegativeLength,
        ),
    ensures
        match spec_read_vec_u8(buf@.skip(pos as int)) {
            Ok((v, k)) => r matches Ok((b, q)) && b@ == v && q == pos + k,
            Err(e) => r matches Err(err) && err.kind() == e,
        },
        r matches Ok((_, q)) ==> pos <= q <= buf@.len(),
{
    proof {
        lemma_scan_range(buf@.skip(pos as int), 0, 5);
    }
    read_byte_vec(buf, pos)
}

/// One action section as read.
pub ghost enum SectionRead {
    Profile { name: Seq<u8>, properties: Seq<PropertyBytes> },
    Chat { session_id: u128, expiry: u64, key: Seq<u8>, key_sig: Seq<u8> },
    GameMode(i32),
    Listed(bool),
    Latency(i32),
    DisplayName(Option<Seq<u8>>),
}

/// What reading the add-player section from the start of `s` gives: the name, then the
/// counted properties.
pub open spec fn spec_read_add_player(s: Seq<u8>) -> Result<(SectionRead, nat), ErrorKind> {
    match spec_read_string(s, STRING_DEFAULT_CAP) {
        Err(e) => Err(e),
        Ok((name, k1)) => match spec_read_var_int(s.skip(k1 as int)) {
            Err(e) => Err(e),
            Ok((count, k2)) => if count < 0 {
                Err(ErrorKind::NegativeLength)
            } else {
                match spec_read_properties(s.skip((k1 + k2) as int), count as nat) {
                    Err(e) => Err(e),
                    Ok((properties, k3)) => Ok(
                        (SectionRead::Profile { name, properties }, k1 + k2 + k3),
                    ),
                }
            },
        },
    }
}

/// What reading the initialize-chat section from the start of `s` gives: the session uuid,
/// the key's expiry as eight big-endian bytes, the key and its signature.
pub open spec fn spec_read_chat_section(s: Seq<u8>) -> Result<(SectionRead, nat), ErrorKind> {
    if s.len() < 24 {
        Err(ErrorKind::EndOfInput)
    } else {
        match spec_read_vec_u8(s.skip(24)) {
            Err(e) => Err(e),
            Ok((key, k1)) => match spec_read_vec_u8(s.skip((24 + k1) as int)) {
                Err(e) => Err(e),
                Ok((key_sig, k2)) => Ok(
                    (
                        SectionRead::Chat {
                            session_id: uuid_value(s.subrange(0, 16)),
                            expiry: be_value(s.subrange(16, 24)) as u64,
                            key,
                            key_sig,
                        },
                        24 + k1 + k2,
                    ),
                ),
            },
        }
    }
}

/// What reading the display-name section from the start of `s` gives: a boolean byte, then,
/// when set, the name's JSON as a counted byte vector.
pub open spec fn spec_read_display_name(s: Seq<u8>) -> Result<(SectionRead, nat), ErrorKind> {
    if s.len() < 1 {
        Err(ErrorKind::EndOfInput)
    } else if s[0] == 0 {
        Ok((SectionRead::DisplayName(None), 1))
    } else {
        match spec_read_vec_u8(s.skip(1)) {
            Err(e) => Err(e),
            Ok((json, k)) => Ok((SectionRead::DisplayName(Some(json)), 1 + k)),
        }
    }
}

/// What reading the section of action `i` from the start of `s` gives; the game mode and
/// latency are VarInts, listed a boolean byte.
#[verifier::opaque]
pub open spec fn spec_read_section(i: int, s: Seq<u8>) -> Result<(SectionRead, nat), ErrorKind> {
    if i == 0 {
        spec_read_add_player(s)
    } else if i == 1 {
        spec_read_chat_section(s)
    } else if i == 2 || i == 4 {
        match spec_read_var_int(s) {
            Err(e) => Err(e),
            Ok((v, k)) => Ok(
                (if i == 2 {
                    SectionRead::GameMode(v)
                } else {
                    SectionRead::Latency(v)
                }, k),
            ),
        }
    } else if i == 3 {
        if s.len() < 1 {
            Err(ErrorKind::EndOfInput)
        } else {
            Ok((SectionRead::Listed(s[0] != 0), 1))
        }
    } else {
        spec_read_display_name(s)
    }
}

/// What reading the sections of the actions from `i` on gives: `None` for an action whose bit
/// is clear, the section for one whose bit is set, in bit order.
pub open spec fn spec_read_sections(actions: BitSet, s: Seq<u8>, i: int) -> Result<(Seq<Option<SectionRead>>, nat), ErrorKind>
    decreases 6 - i,
{
    if i >= 6 {
        Ok((seq![], 0))
    } else if actions.bit(i) {
        match spec_read_section(i, s) {
            Err(e) => Err(e),
            Ok((sec, k)) => match spec_read_sections(actions, s.skip(k as int), i + 1) {
                Err(e) => Err(e),
                Ok((rest, k2)) => Ok((seq![Some(sec)] + rest, k + k2)),
            },
        }
    } else {
        match spec_read_sections(actions, s, i + 1) {
            Err(e) => Err(e),
            Ok((rest, k)) => Ok((seq![None] + rest, k)),
        }
    }
}

/// What reading an entry's action sections gives: the consistency failure of the action set,
/// or the sections.
pub open spec fn spec_decode_actions(actions: BitSet, s: Seq<u8>) -> Result<(Seq<Option<SectionRead>>, nat), ErrorKind> {
    if !actions.invariants_hold() {
        Err(ErrorKind::Explain(invariant_error(actions.storage(), actions.in_use())))
    } else {
        spec_read_sections(actions, s, 0)
    }
}

/// Field `j` of `new` is what section `sec` sets, or the field of `old` when the section is
/// absent.
#[verifier::opaque]
pub open spec fn section_applied(old: PlayerInfoEntry, new: PlayerInfoEntry, j: int, sec: Option<SectionRead>) -> bool {
    if j == 0 {
        match sec {
            Some(SectionRead::Profile { name, properties }) => new.profile matches Some(p)
                && profile_is(p, ProfileBytes { id: old.profile_id, name, properties }),
            _ => new.profile == old.profile,
        }
    } else if j == 1 {
        match sec {
            Some(SectionRead::Chat { session_id, expiry, key, key_sig }) => new.chat_session matches Some(c)
                && c.session_id == session_id && c.key.expiry == expiry && c.key.encoded_key@ == key
                && c.key.key_sig@ == key_sig,
            _ => new.chat_session == old.chat_session,
        }
    } else if j == 2 {
        match sec {
            Some(SectionRead::GameMode(g)) => new.game_mode == Some(g),
            _ => new.game_mode == old.game_mode,
        }
    } else if j == 3 {
        match sec {
            Some(SectionRead::Listed(b)) => new.listed == Some(b),
            _ => new.listed == old.listed,
        }
    } else if j == 4 {
        match sec {
            Some(SectionRead::Latency(l)) => new.latency == Some(l),
            _ => new.latency == old.latency,
        }
    } else {
        match sec {
            Some(SectionRead::DisplayName(d)) => match d {
                None => new.display_name is None,
                Some(json) => new.display_name matches Some(v) && v@ == json,
            },
            _ => new.display_name == old.display_name,
        }
    }
}

/// Reads the add-player section at `pos`.
#[verifier::rlimit(60)]
fn read_add_player(id: u128, buf: &[u8], pos: usize) -> (r: Result<(GameProfile, usize), TransportError>)
    requires
        pos <= buf@.len(),
        spec_read_add_player(buf@.skip(pos as int)) != Err::<(SectionRead, nat), ErrorKind>(
            ErrorKind::NegativeLength,
        ),
    ensures
        match spec_read_add_player(buf@.skip(pos as int)) {
            Ok((SectionRead::Profile { name, properties }, k)) => r matches Ok((p, q)) && q == pos + k
                && q <= buf@.len() && profile_is(p, ProfileBytes { id, name, properties }),
            Ok(_) => false,
            Err(e) => r matches Err(err) && err.kind() == e,
        },
{
    let ghost s = buf@.skip(pos as int);
    let blen = buf.len();
    let (name, p1) = read_string(buf, pos, STRING_DEFAULT_CAP)?;
    assert(s.skip((p1 - pos) as int) =~= buf@.skip(p1 as int));
    proof {
        lemma_scan_range(buf@.skip(p1 as int), 0, 5);
    }
    let (count, p2) = read_var_int(buf, p1)?;
    if count < 0 {
        return Err(TransportError::EndOfInput);
    }
    assert(s.skip((p2 - pos) as int) =~= buf@.skip(p2 as int));
    let (properties, p3) = read_properties(buf, p2, count as usize)?;
    proof {
        reveal(profile_is);
    }
    Ok((GameProfile { id, name, properties }, p3))
}

/// Reads the initialize-chat section at `pos`.
fn read_chat_section(buf: &[u8], pos: usize) -> (r: Result<(RemoteChatSession, usize), TransportError>)
    requires
        pos <= buf@.len(),
        spec_read_chat_section(buf@.skip(pos as int)) != Err::<(SectionRead, nat), ErrorKind>(
            ErrorKind::NegativeLength,
        ),
    ensures
        match spec_read_chat_section(buf@.skip(pos as int)) {
            Ok((SectionRead::Chat { session_id, expiry, key, key_sig }, k)) => r matches Ok((c, q))
                && q == pos + k && q <= buf@.len() && c.session_id == session_id && c.key.expiry
                == expiry && c.key.encoded_key@ == key && c.key.key_sig@ == key_sig,
            Ok(_) => false,
            Err(e) => r matches Err(err) && err.kind() == e,
        },
{
    let ghost s = buf@.skip(pos as int);
    let blen = buf.len();
    if blen - pos < 24 {
        return Err(TransportError::EndOfInput);
    }
    let (session_id, p1) = read_uuid(buf, pos)?;
    let (expiry, p2) = read_be(buf, p1, 8)?;
    assert(s.subrange(0, 16) =~= buf@.subrange(pos as int, pos + 16));
    assert(s.subrange(16, 24) =~= buf@.subrange(p1 as int, p1 + 8));
    assert(s.skip(24) =~= buf@.skip(p2 as int));
    let (encoded_key, p3) = read_vec_u8(buf, p2)?;
    assert(s.skip((p3 - pos) as int) =~= buf@.skip(p3 as int));
    let (key_sig, p4) = read_vec_u8(buf, p3)?;
    proof {
        crate::codec::lemma_be_value_bound(buf@.subrange(p1 as int, p1 + 8));
        assert(crate::codec::pow256(8) == 0x1_0000_0000_0000_0000) by {
            reveal_with_fuel(crate::codec::pow256, 9);
        }
    }
    Ok(
        (
            RemoteChatSession { session_id, key: ProfilePublicKey { expiry, encoded_key, key_sig } },
            p4,
        ),
    )
}

/// Reads the display-name section at `pos`.
fn read_display_name(buf: &[u8], pos: usize) -> (r: Result<(Option<Vec<u8>>, usize), TransportError>)
    requires
        pos <= buf@.len(),
        spec_read_display_name(buf@.skip(pos as int)) != Err::<(SectionRead, nat), ErrorKind>(
            ErrorKind::NegativeLength,
        ),
    ensures
        match spec_read_display_name(buf@.skip(pos as int)) {
            Ok((SectionRead::DisplayName(d), k)) => r matches Ok((v, q)) && q == pos + k && q
                <= buf@.len() && match d {
                None => v is None,
                Some(json) => v matches Some(b) && b@ == json,
            },
            Ok(_) => false,
            Err(e) => r matches Err(err) && err.kind() == e,
        },
{
    let ghost s = buf@.skip(pos as int);
    let blen = buf.len();
    let (present, p1) = read_bool(buf, pos)?;
    if !present {
        return Ok((None, p1));
    }
    assert(s.skip(1) =~= buf@.skip(p1 as int));
    let (json, p2) = read_vec_u8(buf, p1)?;
    Ok((Some(json), p2))
}

/// Reads the section of action `i` at `pos` into `entry`.
fn read_section(i: i32, entry: &mut PlayerInfoEntry, buf: &[u8], pos: usize) -> (r: Result<usize, TransportError>)
    requires
        0 <= i < 6,
        pos <= buf@.len(),
        spec_read_section(i as int, buf@.skip(pos as int)) != Err::<(SectionRead, nat), ErrorKind>(
            ErrorKind::NegativeLength,
        ),
    ensures
        final(entry).profile_id == old(entry).profile_id,
        match spec_read_section(i as int, buf@.skip(pos as int)) {
            Ok((sec, k)) => r == Ok::<usize, TransportError>((pos + k) as usize) && pos + k
                <= buf@.len() && section_applied(*old(entry), *final(entry), i as int, Some(sec))
                && forall|j: int|
                0 <= j < 6 && j != i ==> section_applied(*old(entry), *final(entry), j, None),
            Err(e) => r matches Err(err) && err.kind() == e,
        },
{
    reveal(section_applied);
    reveal(spec_read_section);
    let blen = buf.len();
    proof {
        lemma_scan_range(buf@.skip(pos as int), 0, 5);
    }
    if i == 0 {
        let (profile, q) = read_add_player(entry.profile_id, buf, pos)?;
        entry.profile = Some(profile);
        Ok(q)
    } else if i == 1 {
        let (session, q) = read_chat_section(buf, pos)?;
        entry.chat_session = Some(session);
        Ok(q)
    } else if i == 2 || i == 4 {
        let (v, q) = read_var_int(buf, pos)?;
        if i == 2 {
            entry.game_mode = Some(v);
        } else {
            entry.latency = Some(v);
        }
        Ok(q)
    } else if i == 3 {
        let (b, q) = read_bool(buf, pos)?;
        assert(buf@.skip(pos as int)[0] == buf@[pos as int]);
        entry.listed = Some(b);
        Ok(q)
    } else {
        let (d, q) = read_display_name(buf, pos)?;
        entry.display_name = d;
        Ok(q)
    }
}

/// Applying the sections in turn: a field set earlier stays as long as later steps leave it,
/// and a field left so far takes what a later step sets.
proof fn lemma_applied_compose(
    start: PlayerInfoEntry,
    before: PlayerInfoEntry,
    after: PlayerInfoEntry,
    j: int,
    x: Option<SectionRead>,
    y: Option<SectionRead>,
)
    requires
        before.profile_id == start.profile_id,
        x is None || y is None,
        section_applied(start, before, j, x),
        section_applied(before, after, j, y),
    ensures
        section_applied(start, after, j, if y is Some { y } else { x }),
{
    reveal(section_applied);
}

/// The section of action `j` among the sections read from action `i` on; none before `i`.
pub open spec fn sec_at(secs: Seq<Option<SectionRead>>, i: int, j: int) -> Option<SectionRead> {
    if j >= i {
        secs[j - i]
    } else {
        None
    }
}

/// Reads the sections of the actions from `i` on at `at` into `entry`.
#[verifier::rlimit(100)]
fn read_sections_from(in_set: &BitSet, entry: &mut PlayerInfoEntry, buf: &[u8], at: usize, i: i32) -> (r: Result<usize, TransportError>)
    requires
        0 <= i <= 6,
        at <= buf@.len(),
        in_set.in_bounds(),
        in_set.invariants_hold(),
        spec_read_sections(*in_set, buf@.skip(at as int), i as int) != Err::<
            (Seq<Option<SectionRead>>, nat),
            ErrorKind,
        >(ErrorKind::NegativeLength),
    ensures
        final(entry).profile_id == old(entry).profile_id,
        match spec_read_sections(*in_set, buf@.skip(at as int), i as int) {
            Ok((secs, k)) => r == Ok::<usize, TransportError>((at + k) as usize) && at + k
                <= buf@.len() && secs.len() == 6 - i && forall|j: int|
                0 <= j < 6 ==> #[trigger] section_applied(
                    *old(entry),
                    *final(entry),
                    j,
                    sec_at(secs, i as int, j),
                ),
            Err(e) => r matches Err(err) && err.kind() == e,
        },
    decreases 6 - i,
{
    let ghost t = buf@.skip(at as int);
    let ghost start = *entry;
    let blen = buf.len();
    if i >= 6 {
        assert forall|j: int| 0 <= j < 6 implies section_applied(start, start, j, None) by {
            reveal(section_applied);
        }
        return Ok(at);
    }
    let set = in_set.get(i)?;
    if set {
        let next = read_section(i, entry, buf, at)?;
        let ghost mid = *entry;
        assert(t.skip((next - at) as int) =~= buf@.skip(next as int));
        let q = read_sections_from(in_set, entry, buf, next, i + 1)?;
        proof {
            let sec = spec_read_section(i as int, t)->Ok_0.0;
            let rest = spec_read_sections(*in_set, buf@.skip(next as int), i + 1)->Ok_0.0;
            let secs = spec_read_sections(*in_set, t, i as int)->Ok_0.0;
            assert(secs == seq![Some(sec)] + rest);
            assert forall|j: int| 0 <= j < 6 implies section_applied(
                start,
                *entry,
                j,
                sec_at(secs, i as int, j),
            ) by {
                assert(section_applied(mid, *entry, j, sec_at(rest, i + 1, j)));
                if j != i {
                    assert(section_applied(start, mid, j, None));
                }
                if j == i {
                    lemma_applied_compose(start, mid, *entry, j, Some(sec), None);
                } else if j > i {
                    lemma_applied_compose(start, mid, *entry, j, None, rest[j - i - 1]);
                    assert(secs[j - i] == rest[j - i - 1]);
                    if rest[j - i - 1] is None {
                        assert(secs[j - i] is None);
                    }
                } else {
                    lemma_applied_compose(start, mid, *entry, j, None, None);
                }
            }
        }
        Ok(q)
    } else {
        let q = read_sections_from(in_set, entry, buf, at, i + 1)?;
        proof {
            let rest = spec_read_sections(*in_set, t, i + 1)->Ok_0.0;
            let secs = spec_read_sections(*in_set, t, i as int)->Ok_0.0;
            assert(secs == seq![None::<SectionRead>] + rest);
            assert forall|j: int| 0 <= j < 6 implies section_applied(
                start,
                *entry,
                j,
                sec_at(secs, i as int, j),
            ) by {
                assert(section_applied(start, *entry, j, sec_at(rest, i + 1, j)));
                if j > i {
                    assert(secs[j - i] == rest[j - i - 1]);
                }
                assert(sec_at(secs, i as int, j) == sec_at(rest, i + 1, j));
            }
        }
        Ok(q)
    }
}

impl PlayerInfoAction {
    /// Reads the sections of the actions set in `in_set` at `pos` into `entry`, in bit order.
    pub fn decode(in_set: &BitSet, entry: &mut PlayerInfoEntry, buf: &[u8], pos: usize) -> (r: Result<usize, TransportError>)
        requires
            in_set.in_bounds(),
            pos <= buf@.len(),
            spec_decode_actions(*in_set, buf@.skip(pos as int)) != Err::<
                (Seq<Option<SectionRead>>, nat),
                ErrorKind,
            >(ErrorKind::NegativeLength),
        ensures
            final(entry).profile_id == old(entry).profile_id,
            match spec_decode_actions(*in_set, buf@.skip(pos as int)) {
                Ok((secs, k)) => r == Ok::<usize, TransportError>((pos + k) as usize) && pos + k
                    <= buf@.len() && forall|j: int|
                    0 <= j < 6 ==> section_applied(*old(entry), *final(entry), j, #[trigger] secs[j]),
                Err(e) => r matches Err(err) && err.kind() == e,
            },
    {
        let _ = in_set.get(0)?;
        let r = read_sections_from(in_set, entry, buf, pos, 0);
        proof {
            match spec_read_sections(*in_set, buf@.skip(pos as int), 0) {
                Ok((secs, k)) => {
                    assert forall|j: int| 0 <= j < 6 implies section_applied(
                        *old(entry),
                        *entry,
                        j,
                        #[trigger] secs[j],
                    ) by {
                        assert(sec_at(secs, 0, j) == secs[j]);
                    }
                },
                Err(_) => {},
            }
        }
        r
    }
}
/// An entry as `PlayerInfoEntry::new` makes it: the uuid and nothing else.
pub open spec fn empty_entry(id: u128) -> PlayerInfoEntry {
    PlayerInfoEntry {
        profile_id: id,
        profile: None,
        latency: None,
        listed: None,
        game_mode: None,
        display_name: None,
        chat_session: None,
    }
}

/// `e` is the entry for `id` with the sections `secs` read into it.
pub open spec fn entry_read_is(e: PlayerInfoEntry, id: u128, secs: Seq<Option<SectionRead>>) -> bool {
    &&& e.profile_id == id
    &&& forall|j: int| 0 <= j < 6 ==> section_applied(empty_entry(id), e, j, #[trigger] secs[j])
}

/// A player info update: the actions it carries and one entry per player.
#[derive(Debug)]
pub struct PlayerInfoUpsert {
    pub actions: BitSet,
    pub entries: Vec<PlayerInfoEntry>,
}

/// An entry: its uuid, then its action sections.
pub open spec fn entry_result(actions: BitSet, e: PlayerInfoEntry) -> Result<Seq<u8>, ErrorKind> {
    then_bytes(Ok(uuid_bytes(e.profile_id)), spec_encode_actions(actions, e))
}

/// Entries one after the other, or the first that cannot be written.
pub open spec fn entries_result(actions: BitSet, es: Seq<PlayerInfoEntry>) -> Result<Seq<u8>, ErrorKind>
    decreases es.len(),
{
    if es.len() == 0 {
        Ok(seq![])
    } else {
        then_bytes(entries_result(actions, es.drop_last()), entry_result(actions, es.last()))
    }
}

/// Every entry fits.
pub open spec fn entries_fit(es: Seq<PlayerInfoEntry>) -> bool {
    forall|i: int| 0 <= i < es.len() ==> entry_fits(#[trigger] es[i])
}

/// An entry as it is written: its uuid, then its action sections as far as they go.
pub open spec fn entry_stream(actions: BitSet, e: PlayerInfoEntry) -> (Seq<u8>, Option<ErrorKind>) {
    then_stream((uuid_bytes(e.profile_id), None), spec_encode_stream(actions, e))
}

/// Entries as they are written, one after the other, stopping at the first refusal.
pub open spec fn entries_stream(actions: BitSet, es: Seq<PlayerInfoEntry>) -> (Seq<u8>, Option<ErrorKind>)
    decreases es.len(),
{
    if es.len() == 0 {
        (seq![], None)
    } else {
        then_stream(entries_stream(actions, es.drop_last()), entry_stream(actions, es.last()))
    }
}

proof fn lemma_entries_agree(actions: BitSet, es: Seq<PlayerInfoEntry>)
    ensures
        stream_agrees(entries_stream(actions, es), entries_result(actions, es)),
    decreases es.len(),
{
    if es.len() > 0 {
        lemma_entries_agree(actions, es.drop_last());
        let e = es.last();
        lemma_actions_agree(actions, e, 6);
        lemma_then_agrees(
            (uuid_bytes(e.profile_id), None),
            Ok(uuid_bytes(e.profile_id)),
            spec_encode_stream(actions, e),
            spec_encode_actions(actions, e),
        );
        lemma_then_agrees(
            entries_stream(actions, es.drop_last()),
            entries_result(actions, es.drop_last()),
            entry_stream(actions, e),
            entry_result(actions, e),
        );
    }
}

/// Once writing the entries has stopped, more entries write nothing more.
proof fn lemma_entries_stream_stops(actions: BitSet, es: Seq<PlayerInfoEntry>, j: int)
    requires
        0 <= j <= es.len(),
        entries_stream(actions, es.subrange(0, j)).1 is Some,
    ensures
        entries_stream(actions, es) == entries_stream(actions, es.subrange(0, j)),
    decreases es.len() - j,
{
    if j < es.len() {
        assert(es.subrange(0, j + 1).drop_last() =~= es.subrange(0, j));
        lemma_entries_stream_stops(actions, es, j + 1);
    } else {
        assert(es.subrange(0, j) =~= es);
    }
}

impl PlayerInfoUpsert {
    /// The encoding: the action set's first byte, the entry count as a VarInt, then the entries;
    /// or the first entry that cannot be written.
    pub open spec fn spec_encode(&self) -> Result<Seq<u8>, ErrorKind> {
        then_bytes(
            Ok(bytes_of_words(self.actions.used_words()).subrange(0, floored_size(6) as int)
                + spec_var_int(self.entries@.len() as i32)),
            entries_result(self.actions, self.entries@),
        )
    }

    /// What writing the update leaves on the writer, and its failure: the action set's first
    /// byte and the entry count, then the entries up to the first piece that cannot be written.
    pub open spec fn spec_encode_stream(&self) -> (Seq<u8>, Option<ErrorKind>) {
        then_stream(
            (bytes_of_words(self.actions.used_words()).subrange(0, floored_size(6) as int)
                + spec_var_int(self.entries@.len() as i32), None),
            entries_stream(self.actions, self.entries@),
        )
    }

    /// Writes the update straight onto `out`; refused at the first entry piece that cannot be
    /// written, with what came before it left written.
    pub fn encode(&self, out: &mut Vec<u8>) -> (r: Result<(), TransportError>)
        requires
            self.actions.in_bounds(),
            bytes_of_words(self.actions.used_words()).len() >= floored_size(6),
            self.entries@.len() <= i32::MAX,
            entries_fit(self.entries@),
        ensures
            streamed(old(out)@, final(out)@, self.spec_encode_stream(), r),
            match self.spec_encode() {
                Ok(b) => r is Ok && final(out)@ == old(out)@ + b,
                Err(e) => r matches Err(x) && x.kind() == e,
            },
    {
        let ghost o = out@;
        let _ = FixedBitSet::<6>::encode(&self.actions, out);
        write_var_int(out, self.entries.len() as i32);
        let ghost o1 = out@;
        assert(o1 =~= o + (bytes_of_words(self.actions.used_words()).subrange(0, floored_size(6) as int)
            + spec_var_int(self.entries@.len() as i32)));
        assert(self.entries@.subrange(0, 0) =~= Seq::<PlayerInfoEntry>::empty());
        let mut i: usize = 0;
        while i < self.entries.len()
            invariant
                i <= self.entries@.len(),
                self.actions.in_bounds(),
                entries_fit(self.entries@),
                o == old(out)@,
                o1 == o + (bytes_of_words(self.actions.used_words()).subrange(0, floored_size(6) as int)
                    + spec_var_int(self.entries@.len() as i32)),
                entries_stream(self.actions, self.entries@.subrange(0, i as int)).1 is None,
                out@ == o1 + entries_stream(self.actions, self.entries@.subrange(0, i as int)).0,
            decreases self.entries@.len() - i,
        {
            assert(self.entries@.subrange(0, i + 1).drop_last() =~= self.entries@.subrange(0, i as int));
            let entry = &self.entries[i];
            assert(entry_fits(self.entries@[i as int]));
            let ghost before = out@;
            write_uuid(out, entry.profile_id);
            let res = PlayerInfoAction::encode(&self.actions, entry, out);
            assert(out@ =~= o1 + entries_stream(self.actions, self.entries@.subrange(0, i + 1)).0);
            match res {
                Ok(()) => {},
                Err(e) => {
                    proof {
                        lemma_entries_stream_stops(self.actions, self.entries@, i + 1);
                        lemma_entries_agree(self.actions, self.entries@);
                        assert(out@ =~= o + self.spec_encode_stream().0);
                    }
                    return Err(e);
                },
            }
            i = i + 1;
        }
        assert(self.entries@.subrange(0, self.entries@.len() as int) =~= self.entries@);
        proof {
            lemma_entries_agree(self.actions, self.entries@);
        }
        assert(out@ =~= o + self.spec_encode_stream().0);
        Ok(())
    }

    /// Number of bytes of the update; refused as `encode` is.
    pub fn size(&self) -> (r: Result<usize, TransportError>)
        requires
            self.actions.in_bounds(),
            bytes_of_words(self.actions.used_words()).len() >= floored_size(6),
            self.entries@.len() <= i32::MAX,
            entries_fit(self.entries@),
        ensures
            match self.spec_encode() {
                Ok(b) => if b.len() <= usize::MAX {
                    r == Ok::<usize, TransportError>(b.len() as usize)
                } else {
                    r is Err
                },
                Err(e) => r matches Err(x) && x.kind() == e,
            },
    {
        let mut buf: Vec<u8> = Vec::new();
        self.encode(&mut buf)?;
        Ok(buf.len())
    }
}

/// What reading `n` entries one after the other from the start of `s` gives: each a uuid, then
/// its action sections.
pub open spec fn spec_read_entries(actions: BitSet, s: Seq<u8>, n: nat) -> Result<(Seq<(u128, Seq<Option<SectionRead>>)>, nat), ErrorKind>
    decreases n,
{
    if n == 0 {
        Ok((seq![], 0))
    } else if s.len() < 16 {
        Err(ErrorKind::EndOfInput)
    } else {
        match spec_decode_actions(actions, s.skip(16)) {
            Err(e) => Err(e),
            Ok((secs, k)) => match spec_read_entries(actions, s.skip((16 + k) as int), (n - 1) as nat) {
                Err(e) => Err(e),
                Ok((rest, k2)) => Ok((seq![(uuid_value(s.subrange(0, 16)), secs)] + rest, 16 + k + k2)),
            },
        }
    }
}

/// What reading the entry count and the entries from the start of `s` gives.
pub open spec fn spec_read_counted_entries(actions: BitSet, s: Seq<u8>) -> Result<(Seq<(u128, Seq<Option<SectionRead>>)>, nat), ErrorKind> {
    match spec_read_var_int(s) {
        Err(e) => Err(e),
        Ok((n, k)) => if n < 0 {
            Err(ErrorKind::NegativeLength)
        } else {
            match spec_read_entries(actions, s.skip(k as int), n as nat) {
                Err(e) => Err(e),
                Ok((es, k2)) => Ok((es, k + k2)),
            }
        },
    }
}

/// `es` are the entries read as `v`.
pub open spec fn entries_read_are(es: Seq<PlayerInfoEntry>, v: Seq<(u128, Seq<Option<SectionRead>>)>) -> bool {
    &&& es.len() == v.len()
    &&& forall|i: int| 0 <= i < v.len() ==> entry_read_is(#[trigger] es[i], v[i].0, v[i].1)
}

/// Reads `n` entries at `at`.
#[verifier::rlimit(60)]
fn read_entries(actions: &BitSet, buf: &[u8], at: usize, n: usize) -> (r: Result<(Vec<PlayerInfoEntry>, usize), TransportError>)
    requires
        at <= buf@.len(),
        actions.in_bounds(),
        spec_read_entries(*actions, buf@.skip(at as int), n as nat) != Err::<
            (Seq<(u128, Seq<Option<SectionRead>>)>, nat),
            ErrorKind,
        >(ErrorKind::NegativeLength),
    ensures
        match spec_read_entries(*actions, buf@.skip(at as int), n as nat) {
            Ok((v, k)) => r matches Ok((es, q)) && entries_read_are(es@, v) && q == at + k,
            Err(e) => r matches Err(err) && err.kind() == e,
        },
        r matches Ok((_, q)) ==> at <= q <= buf@.len(),
    decreases n,
{
    let ghost s = buf@.skip(at as int);
    let blen = buf.len();
    if n == 0 {
        return Ok((Vec::new(), at));
    }
    let (id, p1) = read_uuid(buf, at)?;
    assert(s.subrange(0, 16) =~= buf@.subrange(at as int, at + 16));
    assert(s.skip(16) =~= buf@.skip(p1 as int));
    let mut entry = PlayerInfoEntry::new(id);
    let p2 = PlayerInfoAction::decode(actions, &mut entry, buf, p1)?;
    assert(s.skip((p2 - at) as int) =~= buf@.skip(p2 as int));
    let (mut rest, q) = read_entries(actions, buf, p2, n - 1)?;
    let mut es: Vec<PlayerInfoEntry> = Vec::new();
    es.push(entry);
    let ghost rest_v = rest@;
    es.append(&mut rest);
    proof {
        let v = spec_read_entries(*actions, s, n as nat)->Ok_0.0;
        let secs = spec_decode_actions(*actions, s.skip(16))->Ok_0.0;
        let vr = spec_read_entries(*actions, buf@.skip(p2 as int), (n - 1) as nat)->Ok_0.0;
        assert(v == seq![(uuid_value(s.subrange(0, 16)), secs)] + vr);
        assert forall|i: int| 0 <= i < v.len() implies entry_read_is(#[trigger] es@[i], v[i].0, v[i].1) by {
            if i == 0 {
                assert forall|j: int| 0 <= j < 6 implies section_applied(
                    empty_entry(id),
                    es@[0],
                    j,
                    #[trigger] secs[j],
                ) by {
                }
            } else {
                assert(es@[i] == rest_v[i - 1]);
                assert(v[i] == vr[i - 1]);
            }
        }
    }
    Ok((es, q))
}

impl PlayerInfoUpsert {
    /// Reads an update at `pos`: the action set's byte, the entry count, then the entries.
    pub fn decode(buf: &[u8], pos: usize) -> (r: Result<(PlayerInfoUpsert, usize), TransportError>)
        requires
            pos <= buf@.len(),
            forall|a: BitSet|
                a.wf() && pos + 1 <= buf@.len() && a.used_words() == words_from_bytes(
                    buf@.subrange(pos as int, pos + 1),
                ) ==> #[trigger] spec_read_counted_entries(a, buf@.skip(pos + 1)) != Err::<
                    (Seq<(u128, Seq<Option<SectionRead>>)>, nat),
                    ErrorKind,
                >(ErrorKind::NegativeLength),
        ensures
            pos + 1 > buf@.len() ==> r matches Err(TransportError::EndOfInput),
            pos + 1 <= buf@.len() ==> exists|a: BitSet|
                a.wf() && a.used_words() == words_from_bytes(buf@.subrange(pos as int, pos + 1))
                    && match #[trigger] spec_read_counted_entries(a, buf@.skip(pos + 1)) {
                    Ok((v, k)) => r matches Ok((u, q)) && u.actions == a && entries_read_are(
                        u.entries@,
                        v,
                    ) && q == pos + 1 + k,
                    Err(e) => r matches Err(err) && err.kind() == e,
                },
    {
        let blen = buf.len();
        let (actions, p1) = FixedBitSet::<6>::decode(buf, pos)?;
        proof {
            assert(floored_size(6) == 1);
        }
        let ghost s = buf@.skip(p1 as int);
        proof {
            lemma_scan_range(s, 0, 5);
            assert(actions.wf());
            assert(p1 == pos + 1);
            assert(buf@.subrange(pos as int, pos + floored_size(6)) == buf@.subrange(pos as int, pos + 1));
            let witness = spec_read_counted_entries(actions, buf@.skip(pos + 1));
        }
        let (count, p2) = read_var_int(buf, p1)?;
        if count < 0 {
            return Err(TransportError::EndOfInput);
        }
        assert(s.skip((p2 - p1) as int) =~= buf@.skip(p2 as int));
        let (entries, q) = read_entries(&actions, buf, p2, count as usize)?;
        Ok((PlayerInfoUpsert { actions, entries }, q))
    }
}


/// The protocol's position for each equipment slot: main hand 0, off hand 1, feet 2, legs 3,
/// chest 4, head 5.
pub proof fn law_equipment_slot_positions(e: EquipmentSlot)
    ensures
        e.spec_ordinal() == match e {
            EquipmentSlot::MainHand => 0usize,
            EquipmentSlot::OffHand => 1usize,
            EquipmentSlot::Feet => 2usize,
            EquipmentSlot::Legs => 3usize,
            EquipmentSlot::Chest => 4usize,
            EquipmentSlot::Head => 5usize,
        },
{
}

/// The protocol's position for each recipe book: crafting 0, furnace 1, blast furnace 2,
/// smoker 3.
pub proof fn law_recipe_book_positions(b: RecipeBookType)
    ensures
        b.spec_ordinal() == match b {
            RecipeBookType::Crafting => 0u8,
            RecipeBookType::Furnace => 1u8,
            RecipeBookType::BlastFurnace => 2u8,
            RecipeBookType::Smoker => 3u8,
        },
{
}


proof fn lemma_flag_word_bits(x: i32, y: i32, z: i32)
    by (bit_vector)
    requires
        x == 0 || x == 1,
        y == 0 || y == 2,
        z == 0 || z == 4,
    ensures
        ((x | y | z) & 1 != 0) == (x == 1),
        ((x | y | z) & 2 != 0) == (y == 2),
        ((x | y | z) & 4 != 0) == (z == 4),
        ((((x | y | z) as u32) as u64) as u32) as i32 == x | y | z,
{
}

/// Reading back what `DisplayInfoFlags::encode` wrote gives the flags: bit 2 of the flag word
/// says whether a toast shows, bit 4 whether it is hidden, bit 1 whether a background follows,
/// and the background is the string after the word.
pub proof fn law_display_info_flags_roundtrip(f: DisplayInfoFlags, rest: Seq<u8>)
    requires
        f.spec_result() is Ok,
    ensures
        ({
            let b = f.spec_result()->Ok_0;
            let s = b + rest;
            let flag = crate::codec::be_value(s.subrange(0, 4)) as u64 as u32 as i32;
            &&& b.len() >= 4
            &&& (flag & 2 != 0) == f.show_toast
            &&& (flag & 4 != 0) == f.hidden
            &&& (flag & 1 != 0) == (f.background is Some)
            &&& f.background matches Some(bg) ==> crate::codec::spec_read_string(
                s.skip(4),
                STRING_DEFAULT_CAP,
            ) == Ok::<(Seq<u8>, nat), ErrorKind>((utf8_bytes(bg@), (b.len() - 4) as nat))
            &&& f.background is None ==> b.len() == 4
        }),
{
    let x: i32 = if f.background is Some { 1 } else { 0 };
    let y: i32 = if f.show_toast { 2 } else { 0 };
    let z: i32 = if f.hidden { 4 } else { 0 };
    lemma_flag_word_bits(x, y, z);
    let w = f.spec_flag();
    assert(w == x | y | z);
    let head = be_bytes(w as u32 as nat, 4);
    crate::codec::lemma_be_roundtrip(w as u32 as nat, 4);
    assert(crate::codec::pow256(4) == 0x1_0000_0000) by {
        reveal_with_fuel(crate::codec::pow256, 5);
    }
    let b = f.spec_result()->Ok_0;
    let s = b + rest;
    match f.background {
        Some(bg) => {
            assert(b =~= head + spec_string(bg@));
            assert(s.subrange(0, 4) =~= head);
            assert(s.skip(4) =~= spec_string(bg@) + rest);
            crate::codec::law_string_roundtrip(bg@, STRING_DEFAULT_CAP, rest);
        },
        None => {
            assert(b =~= head);
            assert(s.subrange(0, 4) =~= head);
        },
    }
}


/// Reading back what `RecipeBookSettings::encode` wrote gives every book its setting: each
/// book's open flag, then its filtering flag, in book order.
pub proof fn law_recipe_book_settings_roundtrip(m: Map<u8, RecipeBookSetting>, rest: Seq<u8>, read: Map<u8, RecipeBookSetting>)
    requires
        settings_read(read, spec_settings_bytes(m) + rest, 0, 4),
    ensures
        forall|b: u8| 0 <= b < 4 ==> #[trigger] read[b] == m[b],
        spec_settings_bytes(m).len() == 8,
{
    let s = spec_settings_bytes(m) + rest;
    assert forall|b: u8| 0 <= b < 4 implies #[trigger] read[b] == m[b] by {
        assert(setting_read_at(read, s, 0, b));
        assert(s[2 * b] == spec_settings_bytes(m)[2 * b]);
        assert(s[2 * b + 1] == spec_settings_bytes(m)[2 * b + 1]);
    }
}


/// What a read finds of a property.
pub open spec fn property_as_read(p: GameProfileProperty) -> PropertyBytes {
    PropertyBytes {
        name: utf8_bytes(p.name@),
        value: utf8_bytes(p.value@),
        signature: match p.signature {
            None => None,
            Some(sig) => Some(utf8_bytes(sig@)),
        },
    }
}

proof fn lemma_property_read(p: GameProfileProperty, rest: Seq<u8>)
    requires
        property_result(p) is Ok,
    ensures
        spec_read_property(property_result(p)->Ok_0 + rest) == Ok::<(PropertyBytes, nat), ErrorKind>(
            (property_as_read(p), property_result(p)->Ok_0.len()),
        ),
{
    let n = spec_string(p.name@);
    let v = spec_string(p.value@);
    let b = property_result(p)->Ok_0;
    let s = b + rest;
    match p.signature {
        None => {
            assert(b =~= n + v + seq![0u8]);
            assert(s =~= n + (v + (seq![0u8] + rest)));
            crate::codec::law_string_roundtrip(p.name@, STRING_DEFAULT_CAP, v + (seq![0u8] + rest));
            assert(s.skip(n.len() as int) =~= v + (seq![0u8] + rest));
            crate::codec::law_string_roundtrip(p.value@, STRING_DEFAULT_CAP, seq![0u8] + rest);
            assert(s[(n.len() + v.len()) as int] == 0u8);
        },
        Some(sig) => {
            let g = spec_string(sig@);
            assert(b =~= n + v + (seq![1u8] + g));
            assert(s =~= n + (v + (seq![1u8] + (g + rest))));
            crate::codec::law_string_roundtrip(p.name@, STRING_DEFAULT_CAP, v + (seq![1u8] + (g + rest)));
            assert(s.skip(n.len() as int) =~= v + (seq![1u8] + (g + rest)));
            crate::codec::law_string_roundtrip(p.value@, STRING_DEFAULT_CAP, seq![1u8] + (g + rest));
            assert(s[(n.len() + v.len()) as int] == 1u8);
            assert(s.skip((n.len() + v.len() + 1) as int) =~= g + rest);
            crate::codec::law_string_roundtrip(sig@, STRING_DEFAULT_CAP, rest);
        },
    }
}

proof fn lemma_then_assoc(a: Result<Seq<u8>, ErrorKind>, b: Result<Seq<u8>, ErrorKind>, c: Result<Seq<u8>, ErrorKind>)
    ensures
        then_bytes(then_bytes(a, b), c) == then_bytes(a, then_bytes(b, c)),
{
    if a is Ok && b is Ok && c is Ok {
        assert(a->Ok_0 + b->Ok_0 + c->Ok_0 =~= a->Ok_0 + (b->Ok_0 + c->Ok_0));
    }
}

proof fn lemma_then_empty(a: Result<Seq<u8>, ErrorKind>)
    ensures
        then_bytes(a, Ok(seq![])) == a,
        then_bytes(Ok(seq![]), a) == a,
{
    if a is Ok {
        assert(a->Ok_0 + seq![] =~= a->Ok_0);
        assert(seq![] + a->Ok_0 =~= a->Ok_0);
    }
}

proof fn lemma_properties_front(ps: Seq<GameProfileProperty>)
    requires
        ps.len() > 0,
    ensures
        properties_result(ps) == then_bytes(property_result(ps[0]), properties_result(ps.skip(1))),
    decreases ps.len(),
{
    if ps.len() == 1 {
        assert(ps.drop_last() =~= Seq::<GameProfileProperty>::empty());
        assert(ps.skip(1) =~= Seq::<GameProfileProperty>::empty());
        lemma_then_empty(property_result(ps[0]));
    } else {
        let front = ps.drop_last();
        lemma_properties_front(front);
        assert(front.skip(1) =~= ps.skip(1).drop_last());
        assert(ps.skip(1).last() == ps.last());
        lemma_then_assoc(property_result(ps[0]), properties_result(front.skip(1)), property_result(ps.last()));
    }
}

proof fn lemma_then_ok(x: Result<Seq<u8>, ErrorKind>, y: Result<Seq<u8>, ErrorKind>)
    ensures
        then_bytes(x, y) is Ok ==> x is Ok && y is Ok && then_bytes(x, y)->Ok_0 == x->Ok_0 + y->Ok_0,
{
}

proof fn lemma_concat_assoc(a: Seq<u8>, t: Seq<u8>, rest: Seq<u8>)
    ensures
        (a + t) + rest == a + (t + rest),
{
    assert((a + t) + rest =~= a + (t + rest));
}

proof fn lemma_properties_step(s: Seq<u8>, n: nat, p0: PropertyBytes, k: nat, tr: Seq<PropertyBytes>, k2: nat)
    requires
        n >= 1,
        spec_read_property(s) == Ok::<(PropertyBytes, nat), ErrorKind>((p0, k)),
        spec_read_properties(s.skip(k as int), (n - 1) as nat) == Ok::<(Seq<PropertyBytes>, nat), ErrorKind>((tr, k2)),
    ensures
        spec_read_properties(s, n) == Ok::<(Seq<PropertyBytes>, nat), ErrorKind>((seq![p0] + tr, k + k2)),
{
}

#[verifier::spinoff_prover]
proof fn lemma_properties_read(ps: Seq<GameProfileProperty>, rest: Seq<u8>)
    requires
        properties_result(ps) is Ok,
    ensures
        spec_read_properties(properties_result(ps)->Ok_0 + rest, ps.len()) == Ok::<(Seq<PropertyBytes>, nat), ErrorKind>(
            (Seq::new(ps.len(), |j: int| property_as_read(ps[j])), properties_result(ps)->Ok_0.len()),
        ),
    decreases ps.len(),
{
    if ps.len() == 0 {
        assert(Seq::new(0, |j: int| property_as_read(ps[j])) =~= Seq::<PropertyBytes>::empty());
    } else {
        lemma_properties_front(ps);
        let tail = ps.skip(1);
        lemma_then_ok(property_result(ps[0]), properties_result(tail));
        let a = property_result(ps[0])->Ok_0;
        let t = properties_result(tail)->Ok_0;
        lemma_properties_read(tail, rest);
        lemma_property_read(ps[0], t + rest);
        let whole = properties_result(ps)->Ok_0;
        assert(whole == a + t);
        let s = whole + rest;
        lemma_concat_assoc(a, t, rest);
        assert(s.skip(a.len() as int) =~= t + rest);
        let tr = Seq::new(tail.len(), |j: int| property_as_read(tail[j]));
        lemma_properties_step(s, ps.len(), property_as_read(ps[0]), a.len(), tr, t.len());
        assert(seq![property_as_read(ps[0])] + tr =~= Seq::new(ps.len(), |j: int| property_as_read(ps[j])));
    }
}


/// What a read finds of the section of action `i` of an entry.
pub open spec fn action_as_read(i: int, e: PlayerInfoEntry) -> SectionRead {
    if i == 0 {
        SectionRead::Profile {
            name: utf8_bytes(e.profile->Some_0.name@),
            properties: Seq::new(
                e.profile->Some_0.properties@.len(),
                |j: int| property_as_read(e.profile->Some_0.properties@[j]),
            ),
        }
    } else if i == 1 {
        SectionRead::Chat {
            session_id: e.chat_session->Some_0.session_id,
            expiry: e.chat_session->Some_0.key.expiry,
            key: e.chat_session->Some_0.key.encoded_key@,
            key_sig: e.chat_session->Some_0.key.key_sig@,
        }
    } else if i == 2 {
        SectionRead::GameMode(e.game_mode->Some_0)
    } else if i == 3 {
        SectionRead::Listed(e.listed->Some_0)
    } else if i == 4 {
        SectionRead::Latency(e.latency->Some_0)
    } else {
        SectionRead::DisplayName(
            match e.display_name {
                None => None,
                Some(json) => Some(json@),
            },
        )
    }
}

proof fn lemma_profile_section_read(p: GameProfile, rest: Seq<u8>)
    requires
        profile_fits(p),
        profile_result(p) is Ok,
    ensures
        spec_read_add_player(profile_result(p)->Ok_0 + rest) == Ok::<(SectionRead, nat), ErrorKind>(
            (
                SectionRead::Profile {
                    name: utf8_bytes(p.name@),
                    properties: Seq::new(p.properties@.len(), |j: int| property_as_read(p.properties@[j])),
                },
                profile_result(p)->Ok_0.len(),
            ),
        ),
{
    let b = profile_result(p)->Ok_0;
    let s = b + rest;
    let n = spec_string(p.name@);
    let c = spec_var_int(p.properties@.len() as i32);
    lemma_then_ok(string_result(p.name@), then_bytes(Ok(c), properties_result(p.properties@)));
    lemma_then_ok(Ok(c), properties_result(p.properties@));
    let t = properties_result(p.properties@)->Ok_0;
    assert(b == n + (c + t));
    assert(s =~= n + (c + (t + rest)));
    crate::codec::law_string_roundtrip(p.name@, STRING_DEFAULT_CAP, c + (t + rest));
    assert(s.skip(n.len() as int) =~= c + (t + rest));
    crate::codec::lemma_var_int_roundtrip(p.properties@.len() as i32, t + rest);
    assert(s.skip((n.len() + c.len()) as int) =~= t + rest);
    lemma_properties_read(p.properties@, rest);
}

#[verifier::rlimit(80)]
#[verifier::spinoff_prover]
proof fn lemma_chat_section_read(c: RemoteChatSession, rest: Seq<u8>)
    requires
        c.key.encoded_key@.len() <= i32::MAX,
        c.key.key_sig@.len() <= i32::MAX,
    ensures
        spec_read_chat_section(chat_session_bytes(c) + rest) == Ok::<(SectionRead, nat), ErrorKind>(
            (
                SectionRead::Chat {
                    session_id: c.session_id,
                    expiry: c.key.expiry,
                    key: c.key.encoded_key@,
                    key_sig: c.key.key_sig@,
                },
                chat_session_bytes(c).len(),
            ),
        ),
{
    let s = chat_session_bytes(c) + rest;
    let u = uuid_bytes(c.session_id);
    let x = be_bytes(c.key.expiry as nat, 8);
    let key = c.key.encoded_key@;
    let sig = c.key.key_sig@;
    let h1 = spec_var_int(key.len() as i32);
    let h2 = spec_var_int(sig.len() as i32);
    crate::codec::lemma_uuid_roundtrip(c.session_id);
    crate::codec::lemma_be_roundtrip(c.key.expiry as nat, 8);
    assert(crate::codec::pow256(8) == 0x1_0000_0000_0000_0000) by {
        reveal_with_fuel(crate::codec::pow256, 9);
    }
    assert(s =~= u + x + (h1 + (key + (h2 + (sig + rest)))));
    assert(s.subrange(0, 16) =~= u);
    assert(s.subrange(16, 24) =~= x);
    assert(s.skip(24) =~= h1 + (key + (h2 + (sig + rest))));
    crate::codec::lemma_byte_vec_roundtrip(key, h2 + (sig + rest));
    crate::codec::lemma_var_int_roundtrip(key.len() as i32, key + (h2 + (sig + rest)));
    assert(spec_byte_vec(key) + (h2 + (sig + rest)) =~= h1 + (key + (h2 + (sig + rest))));
    assert(s.skip((24 + h1.len() + key.len()) as int) =~= h2 + (sig + rest));
    crate::codec::lemma_byte_vec_roundtrip(sig, rest);
    crate::codec::lemma_var_int_roundtrip(sig.len() as i32, sig + rest);
    assert(spec_byte_vec(sig) + rest =~= h2 + (sig + rest));
}

proof fn lemma_display_name_read(json: Seq<u8>, rest: Seq<u8>)
    requires
        json.len() <= i32::MAX,
    ensures
        spec_read_display_name(seq![1u8] + spec_byte_vec(json) + rest) == Ok::<(SectionRead, nat), ErrorKind>(
            (SectionRead::DisplayName(Some(json)), 1 + spec_byte_vec(json).len()),
        ),
{
    let v = spec_byte_vec(json);
    let s = seq![1u8] + v + rest;
    assert(s.skip(1) =~= v + rest);
    crate::codec::lemma_byte_vec_roundtrip(json, rest);
    crate::codec::lemma_var_int_roundtrip(json.len() as i32, json + rest);
    assert(v + rest =~= spec_var_int(json.len() as i32) + (json + rest));
}

proof fn lemma_action_section_read(i: int, e: PlayerInfoEntry, rest: Seq<u8>)
    requires
        0 <= i < 6,
        entry_fits(e),
        action_section(i, e) is Ok,
    ensures
        spec_read_section(i, action_section(i, e)->Ok_0 + rest) == Ok::<(SectionRead, nat), ErrorKind>(
            (action_as_read(i, e), action_section(i, e)->Ok_0.len()),
        ),
{
    reveal(spec_read_section);
    if i == 0 {
        lemma_profile_section_read(e.profile->Some_0, rest);
    } else if i == 1 {
        lemma_chat_section_read(e.chat_session->Some_0, rest);
    } else if i == 2 {
        crate::codec::lemma_var_int_roundtrip(e.game_mode->Some_0, rest);
    } else if i == 4 {
        crate::codec::lemma_var_int_roundtrip(e.latency->Some_0, rest);
    } else if i == 3 {
    } else {
        match e.display_name {
            None => {},
            Some(json) => {
                lemma_display_name_read(json@, rest);
            },
        }
    }
}


/// The sections of the actions from `i` on, in bit order.
pub open spec fn actions_tail(actions: BitSet, entry: PlayerInfoEntry, i: int) -> Result<Seq<u8>, ErrorKind>
    decreases 6 - i,
{
    if i >= 6 {
        Ok(seq![])
    } else if actions.bit(i) {
        then_bytes(action_section(i, entry), actions_tail(actions, entry, i + 1))
    } else {
        actions_tail(actions, entry, i + 1)
    }
}

proof fn lemma_actions_split(actions: BitSet, entry: PlayerInfoEntry, i: int)
    requires
        0 <= i <= 6,
    ensures
        actions_result(actions, entry, 6) == then_bytes(
            actions_result(actions, entry, i),
            actions_tail(actions, entry, i),
        ),
    decreases 6 - i,
{
    if i == 6 {
        lemma_then_empty(actions_result(actions, entry, 6));
    } else {
        lemma_actions_split(actions, entry, i + 1);
        if actions.bit(i) {
            lemma_then_assoc(
                actions_result(actions, entry, i),
                action_section(i, entry),
                actions_tail(actions, entry, i + 1),
            );
        }
    }
}

/// What a read finds of the sections from action `i` on: `None` for an action whose bit is
/// clear, the entry's section for one whose bit is set.
pub open spec fn actions_as_read(actions: BitSet, entry: PlayerInfoEntry, i: int) -> Seq<Option<SectionRead>> {
    Seq::new(
        (6 - i) as nat,
        |j: int| if actions.bit(i + j) {
            Some(action_as_read(i + j, entry))
        } else {
            None
        },
    )
}

proof fn lemma_actions_tail_read(actions: BitSet, entry: PlayerInfoEntry, i: int, rest: Seq<u8>)
    requires
        0 <= i <= 6,
        entry_fits(entry),
        actions_tail(actions, entry, i) is Ok,
    ensures
        spec_read_sections(actions, actions_tail(actions, entry, i)->Ok_0 + rest, i) == Ok::<
            (Seq<Option<SectionRead>>, nat),
            ErrorKind,
        >((actions_as_read(actions, entry, i), actions_tail(actions, entry, i)->Ok_0.len())),
    decreases 6 - i,
{
    if i == 6 {
        assert(actions_as_read(actions, entry, 6) =~= Seq::<Option<SectionRead>>::empty());
    } else {
        let tail = actions_tail(actions, entry, i + 1);
        if actions.bit(i) {
            lemma_then_ok(action_section(i, entry), tail);
            let a = action_section(i, entry)->Ok_0;
            let t = tail->Ok_0;
            lemma_actions_tail_read(actions, entry, i + 1, rest);
            lemma_action_section_read(i, entry, t + rest);
            lemma_concat_assoc(a, t, rest);
            assert((a + t + rest).skip(a.len() as int) =~= t + rest);
            assert(seq![Some(action_as_read(i, entry))] + actions_as_read(actions, entry, i + 1)
                =~= actions_as_read(actions, entry, i));
        } else {
            lemma_actions_tail_read(actions, entry, i + 1, rest);
            assert(seq![None] + actions_as_read(actions, entry, i + 1) =~= actions_as_read(
                actions,
                entry,
                i,
            ));
        }
    }
}

/// Reading back what `PlayerInfoAction::encode` wrote gives, for each of the six actions in
/// bit order, nothing when its bit is clear and the entry's section when it is set, and
/// consumes exactly the bytes written.
pub proof fn law_player_info_actions_roundtrip(actions: BitSet, entry: PlayerInfoEntry, rest: Seq<u8>)
    requires
        entry_fits(entry),
        spec_encode_actions(actions, entry) is Ok,
    ensures
        spec_decode_actions(actions, spec_encode_actions(actions, entry)->Ok_0 + rest) == Ok::<
            (Seq<Option<SectionRead>>, nat),
            ErrorKind,
        >((actions_as_read(actions, entry, 0), spec_encode_actions(actions, entry)->Ok_0.len())),
{
    lemma_actions_split(actions, entry, 0);
    lemma_then_empty(actions_tail(actions, entry, 0));
    lemma_actions_tail_read(actions, entry, 0, rest);
}


proof fn lemma_entries_front(actions: BitSet, es: Seq<PlayerInfoEntry>)
    requires
        es.len() > 0,
    ensures
        entries_result(actions, es) == then_bytes(entry_result(actions, es[0]), entries_result(actions, es.skip(1))),
    decreases es.len(),
{
    if es.len() == 1 {
        assert(es.drop_last() =~= Seq::<PlayerInfoEntry>::empty());
        assert(es.skip(1) =~= Seq::<PlayerInfoEntry>::empty());
        lemma_then_empty(entry_result(actions, es[0]));
    } else {
        let front = es.drop_last();
        lemma_entries_front(actions, front);
        assert(front.skip(1) =~= es.skip(1).drop_last());
        assert(es.skip(1).last() == es.last());
        lemma_then_assoc(
            entry_result(actions, es[0]),
            entries_result(actions, front.skip(1)),
            entry_result(actions, es.last()),
        );
    }
}

/// What a read finds of the entries: each entry's uuid and its sections.
pub open spec fn entries_as_read(actions: BitSet, es: Seq<PlayerInfoEntry>) -> Seq<(u128, Seq<Option<SectionRead>>)> {
    Seq::new(es.len(), |i: int| (es[i].profile_id, actions_as_read(actions, es[i], 0)))
}

proof fn lemma_entries_step(actions: BitSet, s: Seq<u8>, n: nat, head: (u128, Seq<Option<SectionRead>>), k: nat, tr: Seq<(u128, Seq<Option<SectionRead>>)>, k2: nat)
    requires
        n >= 1,
        s.len() >= 16,
        head.0 == uuid_value(s.subrange(0, 16)),
        spec_decode_actions(actions, s.skip(16)) == Ok::<(Seq<Option<SectionRead>>, nat), ErrorKind>((head.1, k)),
        spec_read_entries(actions, s.skip((16 + k) as int), (n - 1) as nat) == Ok::<
            (Seq<(u128, Seq<Option<SectionRead>>)>, nat),
            ErrorKind,
        >((tr, k2)),
    ensures
        spec_read_entries(actions, s, n) == Ok::<(Seq<(u128, Seq<Option<SectionRead>>)>, nat), ErrorKind>(
            (seq![head] + tr, 16 + k + k2),
        ),
{
}

#[verifier::spinoff_prover]
proof fn lemma_entries_read(actions: BitSet, es: Seq<PlayerInfoEntry>, rest: Seq<u8>)
    requires
        forall|i: int| 0 <= i < es.len() ==> entry_fits(#[trigger] es[i]),
        entries_result(actions, es) is Ok,
    ensures
        spec_read_entries(actions, entries_result(actions, es)->Ok_0 + rest, es.len()) == Ok::<
            (Seq<(u128, Seq<Option<SectionRead>>)>, nat),
            ErrorKind,
        >((entries_as_read(actions, es), entries_result(actions, es)->Ok_0.len())),
    decreases es.len(),
{
    if es.len() == 0 {
        assert(entries_as_read(actions, es) =~= Seq::<(u128, Seq<Option<SectionRead>>)>::empty());
    } else {
        lemma_entries_front(actions, es);
        let tail = es.skip(1);
        lemma_then_ok(entry_result(actions, es[0]), entries_result(actions, tail));
        lemma_then_ok(Ok(uuid_bytes(es[0].profile_id)), spec_encode_actions(actions, es[0]));
        let u = uuid_bytes(es[0].profile_id);
        let a = spec_encode_actions(actions, es[0])->Ok_0;
        let t = entries_result(actions, tail)->Ok_0;
        assert forall|i: int| 0 <= i < tail.len() implies entry_fits(#[trigger] tail[i]) by {
            assert(tail[i] == es[i + 1]);
        }
        lemma_entries_read(actions, tail, rest);
        assert(entry_fits(es[0]));
        law_player_info_actions_roundtrip(actions, es[0], t + rest);
        crate::codec::lemma_uuid_roundtrip(es[0].profile_id);
        let whole = entries_result(actions, es)->Ok_0;
        assert(whole == u + a + t);
        let s = whole + rest;
        assert(s =~= u + (a + (t + rest)));
        assert(s.subrange(0, 16) =~= u);
        assert(s.skip(16) =~= a + (t + rest));
        assert(s.skip((16 + a.len()) as int) =~= t + rest);
        lemma_entries_step(
            actions,
            s,
            es.len(),
            (es[0].profile_id, actions_as_read(actions, es[0], 0)),
            a.len(),
            entries_as_read(actions, tail),
            t.len(),
        );
        assert(seq![(es[0].profile_id, actions_as_read(actions, es[0], 0))] + entries_as_read(actions, tail)
            =~= entries_as_read(actions, es));
    }
}

/// Reading back the entry count and the entries `PlayerInfoUpsert::encode` wrote, under the
/// same action set, gives each entry's uuid and sections in order, and consumes exactly the
/// bytes written.
pub proof fn law_player_info_entries_roundtrip(actions: BitSet, es: Seq<PlayerInfoEntry>, rest: Seq<u8>)
    requires
        es.len() <= i32::MAX,
        forall|i: int| 0 <= i < es.len() ==> entry_fits(#[trigger] es[i]),
        entries_result(actions, es) is Ok,
    ensures
        spec_read_counted_entries(
            actions,
            spec_var_int(es.len() as i32) + entries_result(actions, es)->Ok_0 + rest,
        ) == Ok::<(Seq<(u128, Seq<Option<SectionRead>>)>, nat), ErrorKind>(
            (
                entries_as_read(actions, es),
                spec_var_int(es.len() as i32).len() + entries_result(actions, es)->Ok_0.len(),
            ),
        ),
{
    let h = spec_var_int(es.len() as i32);
    let b = entries_result(actions, es)->Ok_0;
    crate::codec::lemma_var_int_roundtrip(es.len() as i32, b + rest);
    lemma_concat_assoc(h, b, rest);
    assert((h + b + rest).skip(h.len() as int) =~= b + rest);
    lemma_entries_read(actions, es, rest);
}

} // verus!

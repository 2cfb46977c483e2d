//! Two-way registries between namespaced keys (`minecraft:stone`) and numeric protocol ids.
use vstd::hash_map::{HashMapWithView, StringHashMap};
use vstd::prelude::*;

verus! {

broadcast use vstd::std_specs::hash::group_hash_axioms;

/// The registries the game ships with.
#[derive(Copy, Clone, Debug, Eq, Hash, PartialEq, Ord, PartialOrd, Structural)]
pub enum RegistryKey {
    Blocks,
    BlockStates,
    Items,
}

impl RegistryKey {
    /// Looks `key` up in this registry of `registries`.
    pub fn global<I: InheritKeyType>(self, registries: &GlobalRegistry, key: I) -> (r: Option<
        I::OtherIdentifier,
    >)
        requires
            answers_lookup(key),
        ensures
            exists|k: KeyType|
                #![trigger key.key_matches(k)]
                key.key_matches(k) && r == registries.spec_registry(self).lookup(key, k),
    {
        registries.get(self, key)
    }
}

/// One entry of a registry as the game's data files list it.
#[derive(Debug, Clone)]
pub struct RegistryItem {
    pub key: String,
    pub idx: i32,
}

/// The key to id map and the id to key map of one registry.
pub struct Registry {
    to_id: StringHashMap<i32>,
    to_key: HashMapWithView<i32, String>,
}

/// What `from_items` leaves in the key to id map: each item registered in order, a later item
/// overriding an earlier one with the same key.
pub open spec fn ids_after(items: Seq<RegistryItem>) -> Map<Seq<char>, i32>
    decreases items.len(),
{
    if items.len() == 0 {
        Map::empty()
    } else {
        ids_after(items.drop_last()).insert(items.last().key@, items.last().idx)
    }
}

/// What `from_items` leaves in the id to key map.
pub open spec fn keys_after(items: Seq<RegistryItem>) -> Map<i32, String>
    decreases items.len(),
{
    if items.len() == 0 {
        Map::empty()
    } else {
        keys_after(items.drop_last()).insert(items.last().idx, items.last().key)
    }
}

/// A key or an id, as a lookup hands it around.
#[derive(Debug)]
pub enum KeyType {
    String(String),
    Int(i32),
}

/// A string key of `key_type` is answered by an id and an id by a string key, and `parse_out`
/// accepts the answer.
pub open spec fn answers_lookup<I: InheritKeyType>(key_type: I) -> bool {
    forall|k: KeyType, other: KeyType|
        #![trigger key_type.key_matches(k), key_type.parses(other)]
        key_type.key_matches(k) && (k is String <==> other is Int) ==> key_type.parses(other)
}

/// A value that can be looked up in a registry: a key finds an id, an id finds a key.
pub trait InheritKeyType: Sized {
    type OtherIdentifier;

    /// `k` is the lookup key that `create_key_type` makes of `self`.
    spec fn key_matches(&self, k: KeyType) -> bool;

    /// `parse_out` accepts `other`.
    spec fn parses(&self, other: KeyType) -> bool;

    /// What `parse_out` makes of `other`.
    spec fn parsed(&self, other: KeyType) -> Self::OtherIdentifier;

    fn parse_out(&self, other: KeyType) -> (r: Self::OtherIdentifier)
        requires
            self.parses(other),
        ensures
            r == self.parsed(other),
    ;

    fn create_key_type(&self) -> (r: KeyType)
        ensures
            self.key_matches(r),
    ;
}

impl InheritKeyType for String {
    type OtherIdentifier = i32;

    open spec fn key_matches(&self, k: KeyType) -> bool {
        k matches KeyType::String(s) && s@ == self@
    }

    open spec fn parses(&self, other: KeyType) -> bool {
        other is Int
    }

    open spec fn parsed(&self, other: KeyType) -> i32 {
        other->Int_0
    }

    fn parse_out(&self, other: KeyType) -> (r: i32) {
        match other {
            KeyType::Int(idx) => idx,
            KeyType::String(_) => 0,
        }
    }

    fn create_key_type(&self) -> (r: KeyType) {
        KeyType::String(self.clone())
    }
}

impl<'a> InheritKeyType for &'a str {
    type OtherIdentifier = i32;

    open spec fn key_matches(&self, k: KeyType) -> bool {
        k matches KeyType::String(s) && s@ == (*self)@
    }

    open spec fn parses(&self, other: KeyType) -> bool {
        other is Int
    }

    open spec fn parsed(&self, other: KeyType) -> i32 {
        other->Int_0
    }

    fn parse_out(&self, other: KeyType) -> (r: i32) {
        match other {
            KeyType::Int(idx) => idx,
            KeyType::String(_) => 0,
        }
    }

    fn create_key_type(&self) -> (r: KeyType) {
        KeyType::String((*self).to_owned())
    }
}

impl InheritKeyType for i32 {
    type OtherIdentifier = String;

    open spec fn key_matches(&self, k: KeyType) -> bool {
        k == KeyType::Int(*self)
    }

    open spec fn parses(&self, other: KeyType) -> bool {
        other is String
    }

    open spec fn parsed(&self, other: KeyType) -> String {
        other->String_0
    }

    fn parse_out(&self, other: KeyType) -> (r: String) {
        match other {
            KeyType::String(key) => key,
            KeyType::Int(_) => String::new(),
        }
    }

    fn create_key_type(&self) -> (r: KeyType) {
        KeyType::Int(*self)
    }
}

impl From<i32> for KeyType {
    fn from(value: i32) -> (r: Self) {
        KeyType::Int(value)
    }
}

impl vstd::std_specs::convert::FromSpecImpl<i32> for KeyType {
    open spec fn obeys_from_spec() -> bool {
        true
    }

    open spec fn from_spec(value: i32) -> KeyType {
        KeyType::Int(value)
    }
}

impl Registry {
    /// Key to id.
    pub closed spec fn ids(&self) -> Map<Seq<char>, i32> {
        self.to_id@
    }

    /// Id to key.
    pub closed spec fn keys(&self) -> Map<i32, String> {
        self.to_key@
    }

    /// The id of `key`, if registered.
    pub open spec fn id_of(&self, key: Seq<char>) -> Option<i32> {
        if self.ids().contains_key(key) {
            Some(self.ids()[key])
        } else {
            None
        }
    }

    /// The key of `idx`, if registered.
    pub open spec fn key_of(&self, idx: i32) -> Option<String> {
        if self.keys().contains_key(idx) {
            Some(self.keys()[idx])
        } else {
            None
        }
    }

    /// What `get` answers for `key_type`, whose lookup key is `k`.
    pub open spec fn lookup<I: InheritKeyType>(&self, key_type: I, k: KeyType) -> Option<
        I::OtherIdentifier,
    > {
        match k {
            KeyType::String(key) => match self.id_of(key@) {
                Some(idx) => Some(key_type.parsed(KeyType::Int(idx))),
                None => None,
            },
            KeyType::Int(idx) => match self.key_of(idx) {
                Some(key) => Some(key_type.parsed(KeyType::String(key))),
                None => None,
            },
        }
    }

    /// A registry with nothing in it.
    pub fn new() -> (r: Self)
        ensures
            r.ids() == Map::<Seq<char>, i32>::empty(),
            r.keys() == Map::<i32, String>::empty(),
    {
        Registry { to_id: StringHashMap::new(), to_key: HashMapWithView::new() }
    }

    /// Maps `key` to `idx` and `idx` to `key`, replacing what either was mapped to.
    pub fn register(&mut self, key: String, idx: i32)
        ensures
            final(self).ids() == old(self).ids().insert(key@, idx),
            final(self).keys() == old(self).keys().insert(idx, key),
    {
        self.to_id.insert(key.clone(), idx);
        self.to_key.insert(idx, key);
    }

    pub fn get_id(&self, key: &str) -> (r: Option<i32>)
        ensures
            r == self.id_of(key@),
    {
        match self.to_id.get(key) {
            Some(x) => Some(*x),
            None => None,
        }
    }

    pub fn get_key(&self, idx: i32) -> (r: Option<String>)
        ensures
            r == self.key_of(idx),
    {
        match self.to_key.get(&idx) {
            Some(k) => Some(k.clone()),
            None => None,
        }
    }

    /// Looks a key up by its id or an id by its key, as `key_type` asks.
    pub fn get<I: InheritKeyType>(&self, key_type: I) -> (r: Option<I::OtherIdentifier>)
        requires
            answers_lookup(key_type),
        ensures
            exists|k: KeyType|
                #![trigger key_type.key_matches(k)]
                key_type.key_matches(k) && r == self.lookup(key_type, k),
    {
        let k = key_type.create_key_type();
        match k {
            KeyType::String(key) => {
                let ghost kk = KeyType::String(key);
                match self.get_id(key.as_str()) {
                    Some(idx) => {
                        assert(key_type.key_matches(kk));
                        assert(key_type.parses(KeyType::Int(idx)));
                        Some(key_type.parse_out(KeyType::Int(idx)))
                    },
                    None => None,
                }
            },
            KeyType::Int(idx) => {
                match self.get_key(idx) {
                    Some(key) => {
                        assert(key_type.key_matches(KeyType::Int(idx)));
                        assert(key_type.parses(KeyType::String(key)));
                        Some(key_type.parse_out(KeyType::String(key)))
                    },
                    None => None,
                }
            },
        }
    }

    /// A registry holding `items`, registered in order.
    pub fn from_items(items: Vec<RegistryItem>) -> (r: Self)
        ensures
            r.ids() == ids_after(items@),
            r.keys() == keys_after(items@),
    {
        let mut reg = Registry::new();
        let mut i: usize = 0;
        while i < items.len()
            invariant
                i <= items@.len(),
                reg.ids() == ids_after(items@.subrange(0, i as int)),
                reg.keys() == keys_after(items@.subrange(0, i as int)),
            decreases items@.len() - i,
        {
            let item = &items[i];
            reg.register(item.key.clone(), item.idx);
            assert(items@.subrange(0, i + 1).drop_last() =~= items@.subrange(0, i as int));
            i = i + 1;
        }
        assert(items@.subrange(0, items@.len() as int) =~= items@);
        reg
    }
}

impl Default for Registry {
    fn default() -> (r: Self)
        ensures
            r.ids() == Map::<Seq<char>, i32>::empty(),
            r.keys() == Map::<i32, String>::empty(),
    {
        Registry::new()
    }
}

/// The registries of the game, one per `RegistryKey`.
pub struct GlobalRegistry {
    pub blocks: Registry,
    pub block_states: Registry,
    pub items: Registry,
}

impl GlobalRegistry {
    pub open spec fn spec_registry(&self, key: RegistryKey) -> Registry {
        match key {
            RegistryKey::Blocks => self.blocks,
            RegistryKey::BlockStates => self.block_states,
            RegistryKey::Items => self.items,
        }
    }

    /// Builds the registries from the entries of the game's block, block state and item lists.
    pub fn create(
        blocks: Vec<RegistryItem>,
        block_states: Vec<RegistryItem>,
        items: Vec<RegistryItem>,
    ) -> (r: GlobalRegistry)
        ensures
            r.blocks.ids() == ids_after(blocks@) && r.blocks.keys() == keys_after(blocks@),
            r.block_states.ids() == ids_after(block_states@) && r.block_states.keys()
                == keys_after(block_states@),
            r.items.ids() == ids_after(items@) && r.items.keys() == keys_after(items@),
    {
        GlobalRegistry {
            blocks: Registry::from_items(blocks),
            block_states: Registry::from_items(block_states),
            items: Registry::from_items(items),
        }
    }

    fn registry(&self, key: RegistryKey) -> (r: &Registry)
        ensures
            *r == self.spec_registry(key),
    {
        match key {
            RegistryKey::Blocks => &self.blocks,
            RegistryKey::BlockStates => &self.block_states,
            RegistryKey::Items => &self.items,
        }
    }

    pub fn get_id(&self, registry: RegistryKey, key: &str) -> (r: Option<i32>)
        ensures
            r == self.spec_registry(registry).id_of(key@),
    {
        self.registry(registry).get_id(key)
    }

    pub fn get_key(&self, registry: RegistryKey, idx: i32) -> (r: Option<String>)
        ensures
            r == self.spec_registry(registry).key_of(idx),
    {
        self.registry(registry).get_key(idx)
    }

    pub fn get<I: InheritKeyType>(&self, registry: RegistryKey, key_type: I) -> (r: Option<
        I::OtherIdentifier,
    >)
        requires
            answers_lookup(key_type),
        ensures
            exists|k: KeyType|
                #![trigger key_type.key_matches(k)]
                key_type.key_matches(k) && r == self.spec_registry(registry).lookup(key_type, k),
    {
        self.registry(registry).get(key_type)
    }
}

/// After `key` is registered as `idx`, the key finds the id and the id finds the key.
pub proof fn law_register_then_lookup(before: Registry, after: Registry, key: String, idx: i32)
    requires
        after.ids() == before.ids().insert(key@, idx),
        after.keys() == before.keys().insert(idx, key),
    ensures
        after.id_of(key@) == Some(idx),
        after.key_of(idx) == Some(key),
{
}

/// Registering leaves every other key and every other id as it was.
pub proof fn law_register_keeps_others(
    before: Registry,
    after: Registry,
    key: String,
    idx: i32,
    other_key: Seq<char>,
    other_idx: i32,
)
    requires
        after.ids() == before.ids().insert(key@, idx),
        after.keys() == before.keys().insert(idx, key),
        other_key != key@,
        other_idx != idx,
    ensures
        after.id_of(other_key) == before.id_of(other_key),
        after.key_of(other_idx) == before.key_of(other_idx),
{
}

/// Built from a list, a registry maps each key to the id of its last entry in the list.
pub proof fn law_from_items_last_key_wins(items: Seq<RegistryItem>, i: int)
    requires
        0 <= i < items.len(),
        forall|j: int| i < j < items.len() ==> (#[trigger] items[j]).key@ != items[i].key@,
    ensures
        ids_after(items).contains_key(items[i].key@),
        ids_after(items)[items[i].key@] == items[i].idx,
    decreases items.len(),
{
    if i < items.len() - 1 {
        let front = items.drop_last();
        assert forall|j: int| i < j < front.len() implies (#[trigger] front[j]).key@ != front[i].key@ by {
            assert(front[j] == items[j]);
        }
        law_from_items_last_key_wins(front, i);
        assert(items.last() == items[items.len() - 1]);
    }
}

/// Built from a list, a registry maps each id to the key of its last entry in the list.
pub proof fn law_from_items_last_id_wins(items: Seq<RegistryItem>, i: int)
    requires
        0 <= i < items.len(),
        forall|j: int| i < j < items.len() ==> (#[trigger] items[j]).idx != items[i].idx,
    ensures
        keys_after(items).contains_key(items[i].idx),
        keys_after(items)[items[i].idx] == items[i].key,
    decreases items.len(),
{
    if i < items.len() - 1 {
        let front = items.drop_last();
        assert forall|j: int| i < j < front.len() implies (#[trigger] front[j]).idx != front[i].idx by {
            assert(front[j] == items[j]);
        }
        law_from_items_last_id_wins(front, i);
        assert(items.last() == items[items.len() - 1]);
    }
}

/// `regs` is a registry made by `Registry::new` and then each item of `items` registered in
/// turn: `regs[j + 1]` is `regs[j]` after registering `items[j]`.
pub open spec fn registered_in_turn(regs: Seq<Registry>, items: Seq<RegistryItem>) -> bool {
    &&& regs.len() == items.len() + 1
    &&& regs[0].ids() == Map::<Seq<char>, i32>::empty()
    &&& regs[0].keys() == Map::<i32, String>::empty()
    &&& forall|j: int|
        0 <= j < items.len() ==> (#[trigger] regs[j + 1]).ids() == regs[j].ids().insert(
            items[j].key@,
            items[j].idx,
        ) && regs[j + 1].keys() == regs[j].keys().insert(items[j].idx, items[j].key)
}

proof fn lemma_registered_in_turn(regs: Seq<Registry>, items: Seq<RegistryItem>, j: int)
    requires
        registered_in_turn(regs, items),
        0 <= j <= items.len(),
    ensures
        regs[j].ids() == ids_after(items.take(j)),
        regs[j].keys() == keys_after(items.take(j)),
    decreases j,
{
    if j > 0 {
        lemma_registered_in_turn(regs, items, j - 1);
        assert(items.take(j).drop_last() == items.take(j - 1));
        assert(regs[(j - 1) + 1].ids() == regs[j - 1].ids().insert(items[j - 1].key@, items[j - 1].idx));
    } else {
        assert(items.take(0) == Seq::<RegistryItem>::empty());
    }
}

/// Registering items one after another into a new registry: a key finds the id of its last
/// registration, and a key never registered finds nothing.
pub proof fn law_registrations_last_key_wins(regs: Seq<Registry>, items: Seq<RegistryItem>, key: Seq<char>)
    requires
        registered_in_turn(regs, items),
    ensures
        (forall|j: int| 0 <= j < items.len() ==> (#[trigger] items[j]).key@ != key) ==> regs.last().id_of(key)
            is None,
        forall|i: int|
            0 <= i < items.len() && (#[trigger] items[i]).key@ == key && (forall|j: int|
                i < j < items.len() ==> (#[trigger] items[j]).key@ != key) ==> regs.last().id_of(key)
                == Some(items[i].idx),
{
    lemma_registered_in_turn(regs, items, items.len() as int);
    assert(items.take(items.len() as int) == items);
    lemma_ids_after_domain(items, key);
    assert forall|i: int|
        0 <= i < items.len() && (#[trigger] items[i]).key@ == key && (forall|j: int|
            i < j < items.len() ==> (#[trigger] items[j]).key@ != key) implies regs.last().id_of(key)
        == Some(items[i].idx) by {
        law_from_items_last_key_wins(items, i);
    }
}

/// Registering items one after another into a new registry: an id finds the key of its last
/// registration, and an id never registered finds nothing.
pub proof fn law_registrations_last_id_wins(regs: Seq<Registry>, items: Seq<RegistryItem>, idx: i32)
    requires
        registered_in_turn(regs, items),
    ensures
        (forall|j: int| 0 <= j < items.len() ==> (#[trigger] items[j]).idx != idx) ==> regs.last().key_of(idx)
            is None,
        forall|i: int|
            0 <= i < items.len() && (#[trigger] items[i]).idx == idx && (forall|j: int|
                i < j < items.len() ==> (#[trigger] items[j]).idx != idx) ==> regs.last().key_of(idx)
                == Some(items[i].key),
{
    lemma_registered_in_turn(regs, items, items.len() as int);
    assert(items.take(items.len() as int) == items);
    lemma_keys_after_domain(items, idx);
    assert forall|i: int|
        0 <= i < items.len() && (#[trigger] items[i]).idx == idx && (forall|j: int|
            i < j < items.len() ==> (#[trigger] items[j]).idx != idx) implies regs.last().key_of(idx)
        == Some(items[i].key) by {
        law_from_items_last_id_wins(items, i);
    }
}

proof fn lemma_ids_after_domain(items: Seq<RegistryItem>, key: Seq<char>)
    ensures
        (forall|j: int| 0 <= j < items.len() ==> (#[trigger] items[j]).key@ != key) ==> !ids_after(
            items,
        ).contains_key(key),
    decreases items.len(),
{
    if items.len() > 0 {
        let front = items.drop_last();
        if forall|j: int| 0 <= j < items.len() ==> (#[trigger] items[j]).key@ != key {
            assert forall|j: int| 0 <= j < front.len() implies (#[trigger] front[j]).key@ != key by {
                assert(front[j] == items[j]);
            }
            assert(items[items.len() - 1].key@ != key);
        }
        lemma_ids_after_domain(front, key);
    }
}

proof fn lemma_keys_after_domain(items: Seq<RegistryItem>, idx: i32)
    ensures
        (forall|j: int| 0 <= j < items.len() ==> (#[trigger] items[j]).idx != idx) ==> !keys_after(
            items,
        ).contains_key(idx),
    decreases items.len(),
{
    if items.len() > 0 {
        let front = items.drop_last();
        if forall|j: int| 0 <= j < items.len() ==> (#[trigger] items[j]).idx != idx {
            assert forall|j: int| 0 <= j < front.len() implies (#[trigger] front[j]).idx != idx by {
                assert(front[j] == items[j]);
            }
            assert(items[items.len() - 1].idx != idx);
        }
        lemma_keys_after_domain(front, idx);
    }
}

/// Looking up a string key with `get` answers what `get_id` answers for it, and looking up an
/// id answers what `get_key` answers.
pub proof fn law_get_agrees_with_get_id_and_get_key(reg: Registry, key: String, name: &str, idx: i32)
    ensures
        forall|k: KeyType| #[trigger] key.key_matches(k) ==> reg.lookup(key, k) == reg.id_of(key@),
        forall|k: KeyType| #[trigger] name.key_matches(k) ==> reg.lookup(name, k) == reg.id_of(name@),
        forall|k: KeyType| #[trigger] idx.key_matches(k) ==> reg.lookup(idx, k) == reg.key_of(idx),
{
}

} // verus!

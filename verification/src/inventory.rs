//! Products in stock: each item, its validation rules, and the inventory that
//! holds them in the order they were added.
use vstd::prelude::*;
use rand::distr::{Alphanumeric, SampleString};
use crate::files::{decimal, push_decimal};

verus! {

/// Why an operation on the inventory or on a bill was refused.
#[derive(Debug, Clone, Copy, PartialEq, Eq, Structural)]
pub enum InventoryError {
    ProductNotFound,
    EmptyID,
    EmptyName,
    EmptyProvider,
    /// The rejected price, as the bit pattern of its `f32`.
    NegativePrice(u32),
    NotEnoughStock(usize),
    InvalidStock(usize),
}

/// The message shown for an error. `price_text` is how the rejected price reads;
/// only a negative price's message shows it.
pub open spec fn error_message(e: InventoryError, price_text: Seq<char>) -> Seq<char> {
    match e {
        InventoryError::ProductNotFound => "El producto no se encontró."@,
        InventoryError::EmptyID => "El ID no puede estar vacío"@,
        InventoryError::EmptyName => "El nombre no puede estar vacío"@,
        InventoryError::EmptyProvider => "El proveedor no puede estar vacío"@,
        InventoryError::NegativePrice(_) => "El precio ("@ + price_text + ") no puede ser negativo"@,
        InventoryError::NotEnoughStock(ask) => "No hay suficiente Stock ("@ + decimal(ask as nat) + ")!"@,
        InventoryError::InvalidStock(ask) => "El stock proveído ("@ + decimal(ask as nat) + ") es invalido."@,
    }
}

impl InventoryError {
    /// The message shown for the error (see `error_message`).
    pub fn message(&self, price_text: &str) -> (r: String)
        ensures
            r@ == error_message(*self, price_text@),
    {
        match self {
            InventoryError::ProductNotFound => "El producto no se encontró.".to_owned(),
            InventoryError::EmptyID => "El ID no puede estar vacío".to_owned(),
            InventoryError::EmptyName => "El nombre no puede estar vacío".to_owned(),
            InventoryError::EmptyProvider => "El proveedor no puede estar vacío".to_owned(),
            InventoryError::NegativePrice(_) => {
                let mut s = "El precio (".to_owned();
                s.append(price_text);
                s.append(") no puede ser negativo");
                s
            },
            InventoryError::NotEnoughStock(ask) => {
                let mut s = "No hay suficiente Stock (".to_owned();
                push_decimal(&mut s, *ask as u64);
                s.append(")!");
                s
            },
            InventoryError::InvalidStock(ask) => {
                let mut s = "El stock proveído (".to_owned();
                push_decimal(&mut s, *ask as u64);
                s.append(") es invalido.");
                s
            },
        }
    }
}

/// Whether a price, given by the bit pattern of its IEEE-754 `f32`, compares
/// strictly below zero: the sign bit is set and the magnitude is neither zero
/// nor a NaN (negative infinity included).
pub open spec fn price_is_negative(bits: u32) -> bool {
    0x8000_0001u32 <= bits <= 0xff80_0000u32
}

/// Tests a price, given by the bit pattern of its `f32`, for being below zero.
pub fn is_negative_price(bits: u32) -> (r: bool)
    ensures
        r == price_is_negative(bits),
{
    0x8000_0001u32 <= bits && bits <= 0xff80_0000u32
}

/// The characters an id is drawn from: ASCII letters and digits.
pub open spec fn is_ascii_alphanumeric(c: char) -> bool {
    ||| ('0' <= c && c <= '9')
    ||| ('A' <= c && c <= 'Z')
    ||| ('a' <= c && c <= 'z')
}

/// What an item holds, as plain values.
pub struct ItemView {
    pub id: Seq<char>,
    pub name: Seq<char>,
    pub provider: Seq<char>,
    pub quantity_left: usize,
    pub price_bits: u32,
}

/// The first rule that the fields of an item break, if any: the name and the
/// provider must not be empty, the price must not be negative.
pub open spec fn item_fields_error(
    name: Seq<char>,
    provider: Seq<char>,
    price_bits: u32,
) -> Option<InventoryError> {
    if name.len() == 0 {
        Some(InventoryError::EmptyName)
    } else if provider.len() == 0 {
        Some(InventoryError::EmptyProvider)
    } else if price_is_negative(price_bits) {
        Some(InventoryError::NegativePrice(price_bits))
    } else {
        None
    }
}

/// An item built from its fields, or the first rule that they break:
/// the id must not be empty, then the rules of `item_fields_error`.
pub open spec fn spec_new_item(
    id: Seq<char>,
    name: Seq<char>,
    provider: Seq<char>,
    quantity_left: usize,
    price_bits: u32,
) -> Result<ItemView, InventoryError> {
    if id.len() == 0 {
        Err(InventoryError::EmptyID)
    } else {
        match item_fields_error(name, provider, price_bits) {
            Some(e) => Err(e),
            None => Ok(ItemView { id, name, provider, quantity_left, price_bits }),
        }
    }
}

/// The view of an optional string argument.
pub open spec fn opt_str_view(s: Option<&str>) -> Option<Seq<char>> {
    match s {
        Some(s) => Some(s@),
        None => None,
    }
}

/// An item after an edit, or the first rule that the edit breaks. Fields are
/// applied in the order name, provider, quantity, price; an absent field is kept.
pub open spec fn spec_edit_item(
    item: ItemView,
    name: Option<Seq<char>>,
    provider: Option<Seq<char>>,
    quantity_left: Option<usize>,
    price_bits: Option<u32>,
) -> Result<ItemView, InventoryError> {
    if name is Some && name->0.len() == 0 {
        Err(InventoryError::EmptyName)
    } else if provider is Some && provider->0.len() == 0 {
        Err(InventoryError::EmptyProvider)
    } else if price_bits is Some && price_is_negative(price_bits->0) {
        Err(InventoryError::NegativePrice(price_bits->0))
    } else {
        Ok(ItemView {
            id: item.id,
            name: if name is Some { name->0 } else { item.name },
            provider: if provider is Some { provider->0 } else { item.provider },
            quantity_left: if quantity_left is Some { quantity_left->0 } else { item.quantity_left },
            price_bits: if price_bits is Some { price_bits->0 } else { item.price_bits },
        })
    }
}

/// A product in stock. The price is held as the bit pattern of its `f32`.
pub struct InventoryItem {
    id: String,
    name: String,
    provider: String,
    quantity_left: usize,
    price_bits: u32,
}

impl View for InventoryItem {
    type V = ItemView;

    closed spec fn view(&self) -> ItemView {
        ItemView {
            id: self.id@,
            name: self.name@,
            provider: self.provider@,
            quantity_left: self.quantity_left,
            price_bits: self.price_bits,
        }
    }
}

impl InventoryItem {
    fn default() -> (r: Self)
        ensures
            r@ == (ItemView {
                id: Seq::empty(),
                name: Seq::empty(),
                provider: Seq::empty(),
                quantity_left: 0,
                price_bits: 0,
            }),
    {
        InventoryItem {
            id: String::new(),
            name: String::new(),
            provider: String::new(),
            quantity_left: 0,
            price_bits: 0,
        }
    }

    /// An item with the given fields, taken as they are: no rule is applied.
    /// This is how stored items come back.
    pub fn from_parts(
        id: String,
        name: String,
        provider: String,
        quantity_left: usize,
        price_bits: u32,
    ) -> (r: Self)
        ensures
            r@ == (ItemView {
                id: id@,
                name: name@,
                provider: provider@,
                quantity_left,
                price_bits,
            }),
    {
        InventoryItem { id, name, provider, quantity_left, price_bits }
    }

    pub fn get_id(&self) -> (r: &str)
        ensures
            r@ == self@.id,
    {
        self.id.as_str()
    }

    pub fn get_name(&self) -> (r: &str)
        ensures
            r@ == self@.name,
    {
        self.name.as_str()
    }

    pub fn get_provider(&self) -> (r: &str)
        ensures
            r@ == self@.provider,
    {
        self.provider.as_str()
    }

    pub fn get_quantity_left(&self) -> (r: usize)
        ensures
            r == self@.quantity_left,
    {
        self.quantity_left
    }

    /// The price, as the bit pattern of its `f32`.
    pub fn get_price(&self) -> (r: u32)
        ensures
            r == self@.price_bits,
    {
        self.price_bits
    }

    fn set_id(&mut self, id: &str) -> (r: Result<(), InventoryError>)
        ensures
            id@.len() == 0 ==> r == Err::<(), InventoryError>(InventoryError::EmptyID) && final(self)@ == old(self)@,
            id@.len() != 0 ==> r is Ok && final(self)@ == (ItemView { id: id@, ..old(self)@ }),
    {
        if id.is_empty() {
            Err(InventoryError::EmptyID)
        } else {
            self.id = id.to_owned();
            Ok(())
        }
    }

    pub fn set_name(&mut self, name: &str) -> (r: Result<(), InventoryError>)
        ensures
            name@.len() == 0 ==> r == Err::<(), InventoryError>(InventoryError::EmptyName) && final(self)@ == old(self)@,
            name@.len() != 0 ==> r is Ok && final(self)@ == (ItemView { name: name@, ..old(self)@ }),
    {
        if name.is_empty() {
            Err(InventoryError::EmptyName)
        } else {
            self.name = name.to_owned();
            Ok(())
        }
    }

    pub fn set_provider(&mut self, provider: &str) -> (r: Result<(), InventoryError>)
        ensures
            provider@.len() == 0 ==> r == Err::<(), InventoryError>(InventoryError::EmptyProvider) && final(self)@ == old(self)@,
            provider@.len() != 0 ==> r is Ok && final(self)@ == (ItemView { provider: provider@, ..old(self)@ }),
    {
        if provider.is_empty() {
            Err(InventoryError::EmptyProvider)
        } else {
            self.provider = provider.to_owned();
            Ok(())
        }
    }

    pub fn set_quantity_left(&mut self, quantity: usize)
        ensures
            final(self)@ == (ItemView { quantity_left: quantity, ..old(self)@ }),
    {
        self.quantity_left = quantity;
    }

    /// Sets the price, given as the bit pattern of its `f32`; a negative price is refused.
    pub fn set_price(&mut self, price_bits: u32) -> (r: Result<(), InventoryError>)
        ensures
            price_is_negative(price_bits) ==> r == Err::<(), InventoryError>(InventoryError::NegativePrice(price_bits))
                && final(self)@ == old(self)@,
            !price_is_negative(price_bits) ==> r is Ok && final(self)@ == (ItemView { price_bits, ..old(self)@ }),
    {
        if is_negative_price(price_bits) {
            Err(InventoryError::NegativePrice(price_bits))
        } else {
            self.price_bits = price_bits;
            Ok(())
        }
    }

    pub fn clone(&self) -> (r: Self)
        ensures
            r@ == self@,
    {
        InventoryItem {
            id: self.id.clone(),
            name: self.name.clone(),
            provider: self.provider.clone(),
            quantity_left: self.quantity_left,
            price_bits: self.price_bits,
        }
    }

    /// An item with the given fields, or the first rule they break
    /// (empty id, empty name, empty provider, negative price).
    pub fn new(
        id: &str,
        name: &str,
        provider: &str,
        quantity_left: usize,
        price_bits: u32,
    ) -> (r: Result<Self, InventoryError>)
        ensures
            match (r, spec_new_item(id@, name@, provider@, quantity_left, price_bits)) {
                (Ok(item), Ok(v)) => item@ == v,
                (Err(e), Err(f)) => e == f,
                _ => false,
            },
    {
        let mut new = Self::default();
        new.set_id(id)?;
        new.set_name(name)?;
        new.set_provider(provider)?;
        new.set_quantity_left(quantity_left);
        new.set_price(price_bits)?;
        Ok(new)
    }
}


/// Two items are equal when their ids are.
impl PartialEq for InventoryItem {
    fn eq(&self, other: &Self) -> (r: bool) {
        self.id == other.id
    }
}

impl vstd::std_specs::cmp::PartialEqSpecImpl for InventoryItem {
    open spec fn obeys_eq_spec() -> bool {
        true
    }

    open spec fn eq_spec(&self, other: &InventoryItem) -> bool {
        self@.id == other@.id
    }
}

impl Eq for InventoryItem {}

/// Gives std's `Hash::hash` of `String` a contract: it feeds the string to the
/// hasher. Nothing is stated of what the hasher holds after it.
pub assume_specification<H: core::hash::Hasher>[ <String as core::hash::Hash>::hash::<H> ](s: &String, state: &mut H);

/// An item hashes as its id, in keeping with its equality.
impl core::hash::Hash for InventoryItem {
    fn hash<H: core::hash::Hasher>(&self, state: &mut H) {
        self.id.hash(state);
    }
}

/// Whether some item has the given id.
pub open spec fn has_id(items: Seq<ItemView>, id: Seq<char>) -> bool {
    exists|i: int| 0 <= i < items.len() && #[trigger] items[i].id == id
}

/// Whether `i` is the first position whose item has the given id.
pub open spec fn is_first_with_id(items: Seq<ItemView>, id: Seq<char>, i: int) -> bool {
    &&& 0 <= i < items.len()
    &&& items[i].id == id
    &&& forall|j: int| 0 <= j < i ==> #[trigger] items[j].id != id
}

/// The first position whose item has the given id (meaningful where `has_id` holds).
pub open spec fn first_with_id(items: Seq<ItemView>, id: Seq<char>) -> int {
    choose|i: int| is_first_with_id(items, id, i)
}

/// No two items share an id.
pub open spec fn ids_unique(items: Seq<ItemView>) -> bool {
    forall|i: int, j: int|
        0 <= i < items.len() && 0 <= j < items.len() && i != j ==> #[trigger] items[i].id != #[trigger] items[j].id
}

/// There is at most one first position with a given id.
pub proof fn lemma_first_with_id_unique(items: Seq<ItemView>, id: Seq<char>, i: int, k: int)
    requires
        is_first_with_id(items, id, i),
        is_first_with_id(items, id, k),
    ensures
        i == k,
{
    if i < k {
        assert(items[i].id != id);
    } else if k < i {
        assert(items[k].id != id);
    }
}

/// Where some item has the id, `first_with_id` names the first such position.
pub proof fn lemma_first_with_id(items: Seq<ItemView>, id: Seq<char>)
    requires
        has_id(items, id),
    ensures
        is_first_with_id(items, id, first_with_id(items, id)),
{
    let i = choose|i: int| 0 <= i < items.len() && #[trigger] items[i].id == id;
    lemma_some_first_below(items, id, i);
}

proof fn lemma_some_first_below(items: Seq<ItemView>, id: Seq<char>, i: int)
    requires
        0 <= i < items.len(),
        items[i].id == id,
    ensures
        exists|k: int| is_first_with_id(items, id, k),
    decreases i,
{
    if exists|j: int| 0 <= j < i && #[trigger] items[j].id == id {
        let j = choose|j: int| 0 <= j < i && #[trigger] items[j].id == id;
        lemma_some_first_below(items, id, j);
    } else {
        assert(is_first_with_id(items, id, i));
    }
}

/// The products in stock, in the order they were added.
pub struct Inventory {
    items: Vec<InventoryItem>,
}

impl View for Inventory {
    type V = Seq<ItemView>;

    closed spec fn view(&self) -> Seq<ItemView> {
        self.items@.map_values(|it: InventoryItem| it@)
    }
}

/// Calls `Alphanumeric.sample_string(&mut rand::rng(), len)` of the `rand` crate.
/// Trusted to return exactly `len` characters, each an ASCII letter or digit;
/// which characters come is left to chance and is not stated.
#[verifier::external_body]
fn random_alphanumeric(len: usize) -> (s: String)
    ensures
        s@.len() == len,
        forall|i: int| 0 <= i < len ==> is_ascii_alphanumeric(#[trigger] s@[i]),
{
    Alphanumeric.sample_string(&mut rand::rng(), len)
}

impl Inventory {
    /// The length of the ids that `add` draws.
    pub const ID_LENGTH: usize = 8;

    /// How many ids of `ID_LENGTH` letters and digits there are: 62 to the 8th.
    /// An inventory of fewer items always leaves one of them free.
    pub const ID_SPACE: u64 = 218_340_105_584_896;

    pub fn new() -> (r: Self)
        ensures
            r@ == Seq::<ItemView>::empty(),
    {
        let r = Inventory { items: Vec::new() };
        assert(r@ =~= Seq::<ItemView>::empty());
        r
    }

    /// An inventory holding the given items, taken as they are.
    pub fn from_items(items: Vec<InventoryItem>) -> (r: Self)
        ensures
            r@ == items@.map_values(|it: InventoryItem| it@),
    {
        Inventory { items }
    }

    /// The items, in order.
    pub fn items(&self) -> (r: &Vec<InventoryItem>)
        ensures
            r@.map_values(|it: InventoryItem| it@) == self@,
    {
        &self.items
    }

    pub fn size(&self) -> (r: usize)
        ensures
            r == self@.len(),
    {
        self.items.len()
    }

    pub fn is_empty(&self) -> (r: bool)
        ensures
            r == (self@.len() == 0),
    {
        self.size() == 0
    }

    /// The position of the first item with the given id.
    fn position(&self, id: &str) -> (r: Option<usize>)
        ensures
            match r {
                Some(i) => is_first_with_id(self@, id@, i as int) && i == first_with_id(self@, id@),
                None => !has_id(self@, id@),
            },
    {
        let key = id.to_owned();
        let mut i: usize = 0;
        while i < self.items.len()
            invariant
                i <= self.items@.len(),
                key@ == id@,
                forall|j: int| 0 <= j < i ==> #[trigger] self@[j].id != id@,
            decreases self.items@.len() - i,
        {
            if self.items[i].id == key {
                proof {
                    assert(is_first_with_id(self@, id@, i as int));
                    lemma_first_with_id_unique(self@, id@, i as int, first_with_id(self@, id@));
                }
                return Some(i);
            }
            i = i + 1;
        }
        None
    }

    /// The first item with the given id, if any.
    pub fn find(&self, id: &str) -> (r: Option<&InventoryItem>)
        ensures
            match r {
                Some(item) => {
                    &&& is_first_with_id(self@, id@, first_with_id(self@, id@))
                    &&& item@ == self@[first_with_id(self@, id@)]
                },
                None => !has_id(self@, id@),
            },
    {
        match self.position(id) {
            Some(i) => Some(&self.items[i]),
            None => None,
        }
    }

    /// The first item with the given id, to be changed in place.
    pub fn find_mut(&mut self, id: &str) -> (r: Option<&mut InventoryItem>)
        ensures
            match r {
                Some(item) => {
                    &&& is_first_with_id(old(self)@, id@, first_with_id(old(self)@, id@))
                    &&& item@ == old(self)@[first_with_id(old(self)@, id@)]
                    &&& final(self)@ == old(self)@.update(first_with_id(old(self)@, id@), final(item)@)
                },
                None => !has_id(old(self)@, id@) && final(self)@ == old(self)@,
            },
    {
        match self.position(id) {
            Some(i) => Some(&mut self.items[i]),
            None => None,
        }
    }

    /// The id of code `k`: its `ID_LENGTH` last base-62 digits (see `id_of_code`).
    fn code_id(k: u64) -> (r: String)
        ensures
            r@ == id_of_code(k as nat, Self::ID_LENGTH as nat),
    {
        let mut s = String::new();
        push_id_code(&mut s, k, Self::ID_LENGTH);
        assert(s@ =~= id_of_code(k as nat, Self::ID_LENGTH as nat));
        s
    }

    /// The first id of `ID_LENGTH` letters and digits, in the order of their
    /// codes, that no item has. Among the codes up to the number of items one
    /// is always free.
    fn first_free_code_id(&self) -> (r: String)
        requires
            self@.len() < Self::ID_SPACE,
        ensures
            !has_id(self@, r@),
            r@.len() == Self::ID_LENGTH,
            forall|k: int| 0 <= k < r@.len() ==> is_ascii_alphanumeric(#[trigger] r@[k]),
    {
        let n: u64 = self.items.len() as u64;
        let mut k: u64 = 0;
        loop
            invariant
                k <= n,
                n == self@.len(),
                n < Self::ID_SPACE,
                forall|j: nat| j < k ==> #[trigger] has_id(self@, id_of_code(j, Self::ID_LENGTH as nat)),
            decreases n - k,
        {
            let id = Self::code_id(k);
            if self.position(id.as_str()).is_none() {
                proof {
                    lemma_id_of_code_shape(k as nat, Self::ID_LENGTH as nat);
                }
                return id;
            }
            proof {
                if k == n {
                    lemma_codes_not_all_taken(self@);
                }
            }
            k = k + 1;
        }
    }

    /// A fresh id: random ASCII letters and digits, `ID_LENGTH` of them, drawn
    /// again while an item already has the id. Should every draw of as many as
    /// `u64::MAX` be taken, the first free id in the order of `id_of_code` is used.
    fn generate_unique_id(&self) -> (r: String)
        requires
            self@.len() < Self::ID_SPACE,
        ensures
            !has_id(self@, r@),
            r@.len() == Self::ID_LENGTH,
            forall|k: int| 0 <= k < r@.len() ==> is_ascii_alphanumeric(#[trigger] r@[k]),
    {
        let mut attempts: u64 = 0;
        while attempts < u64::MAX
            decreases u64::MAX - attempts,
        {
            let id = random_alphanumeric(Self::ID_LENGTH);
            if self.position(id.as_str()).is_none() {
                return id;
            }
            attempts = attempts + 1;
        }
        self.first_free_code_id()
    }

    /// Adds an item with the given id, or refuses it with the first rule that
    /// its fields break, leaving the inventory unchanged.
    pub fn add_with_id(
        &mut self,
        id: &str,
        name: &str,
        provider: &str,
        quantity_left: usize,
        price_bits: u32,
    ) -> (r: Result<(), InventoryError>)
        ensures
            match (r, spec_new_item(id@, name@, provider@, quantity_left, price_bits)) {
                (Ok(_), Ok(v)) => final(self)@ == old(self)@.push(v),
                (Err(e), Err(f)) => e == f && final(self)@ == old(self)@,
                _ => false,
            },
    {
        let item = InventoryItem::new(id, name, provider, quantity_left, price_bits)?;
        self.items.push(item);
        assert(self@ =~= old(self)@.push(item@));
        Ok(())
    }

    /// Adds an item under a fresh id of random letters and digits, or refuses it
    /// with the first rule that its fields break, leaving the inventory unchanged.
    pub fn add(
        &mut self,
        name: &str,
        provider: &str,
        quantity_left: usize,
        price_bits: u32,
    ) -> (r: Result<(), InventoryError>)
        requires
            old(self)@.len() < Self::ID_SPACE,
        ensures
            match r {
                Ok(_) => {
                    let it = final(self)@.last();
                    &&& item_fields_error(name@, provider@, price_bits) is None
                    &&& final(self)@ == old(self)@.push(it)
                    &&& it.name == name@
                    &&& it.provider == provider@
                    &&& it.quantity_left == quantity_left
                    &&& it.price_bits == price_bits
                    &&& !has_id(old(self)@, it.id)
                    &&& it.id.len() == Self::ID_LENGTH
                    &&& forall|k: int| 0 <= k < it.id.len() ==> is_ascii_alphanumeric(#[trigger] it.id[k])
                    &&& ids_unique(old(self)@) ==> ids_unique(final(self)@)
                },
                Err(e) => item_fields_error(name@, provider@, price_bits) == Some(e) && final(self)@ == old(self)@,
            },
    {
        let id = self.generate_unique_id();
        let r = self.add_with_id(id.as_str(), name, provider, quantity_left, price_bits);
        proof {
            if r is Ok && ids_unique(old(self)@) {
                lemma_add_fresh_keeps_ids_unique(old(self)@, self@.last());
            }
        }
        r
    }

    /// Removes the first item with the given id.
    pub fn remove(&mut self, id: &str) -> (r: Result<(), InventoryError>)
        ensures
            match r {
                Ok(_) => {
                    &&& is_first_with_id(old(self)@, id@, first_with_id(old(self)@, id@))
                    &&& final(self)@ == old(self)@.remove(first_with_id(old(self)@, id@))
                },
                Err(e) => e == InventoryError::ProductNotFound && !has_id(old(self)@, id@)
                    && final(self)@ == old(self)@,
            },
            ids_unique(old(self)@) ==> ids_unique(final(self)@) && !has_id(final(self)@, id@),
    {
        match self.position(id) {
            Some(i) => {
                self.items.remove(i);
                assert(self@ =~= old(self)@.remove(i as int));
                proof {
                    if ids_unique(old(self)@) {
                        lemma_remove_leaves_no_item_with_id(old(self)@, id@);
                    }
                }
                Ok(())
            },
            None => Err(InventoryError::ProductNotFound),
        }
    }

    /// Changes the given fields of the first item with the given id. Either every
    /// field is applied or, on the first rule broken, none is.
    pub fn edit(
        &mut self,
        id: &str,
        name: Option<&str>,
        provider: Option<&str>,
        quantity_left: Option<usize>,
        price_bits: Option<u32>,
    ) -> (r: Result<(), InventoryError>)
        ensures
            !has_id(old(self)@, id@) ==> r == Err::<(), InventoryError>(InventoryError::ProductNotFound)
                && final(self)@ == old(self)@,
            has_id(old(self)@, id@) ==> {
                let i = first_with_id(old(self)@, id@);
                &&& is_first_with_id(old(self)@, id@, i)
                &&& match spec_edit_item(old(self)@[i], opt_str_view(name), opt_str_view(provider), quantity_left, price_bits) {
                    Ok(v) => r is Ok && final(self)@ == old(self)@.update(i, v),
                    Err(e) => r == Err::<(), InventoryError>(e) && final(self)@ == old(self)@,
                }
            },
            ids_unique(old(self)@) ==> ids_unique(final(self)@),
    {
        match self.position(id) {
            None => Err(InventoryError::ProductNotFound),
            Some(i) => {
                let mut temp = self.items[i].clone();
                if let Some(name) = name {
                    temp.set_name(name)?;
                }
                if let Some(provider) = provider {
                    temp.set_provider(provider)?;
                }
                if let Some(quantity_left) = quantity_left {
                    temp.set_quantity_left(quantity_left);
                }
                if let Some(price_bits) = price_bits {
                    temp.set_price(price_bits)?;
                }
                self.items.set(i, temp);
                assert(self@ =~= old(self)@.update(i as int, temp@));
                proof {
                    if ids_unique(old(self)@) {
                        lemma_edit_keeps_ids_unique(
                            old(self)@,
                            id@,
                            opt_str_view(name),
                            opt_str_view(provider),
                            quantity_left,
                            price_bits,
                        );
                    }
                }
                Ok(())
            },
        }
    }
}

/// Adding an item under an id that no item has keeps the ids unique (`add`
/// draws such an id).
pub proof fn lemma_add_fresh_keeps_ids_unique(items: Seq<ItemView>, item: ItemView)
    requires
        ids_unique(items),
        !has_id(items, item.id),
    ensures
        ids_unique(items.push(item)),
{
    let all = items.push(item);
    assert forall|i: int, j: int|
        0 <= i < all.len() && 0 <= j < all.len() && i != j implies #[trigger] all[i].id != #[trigger] all[j].id by {
        if i < items.len() && j < items.len() {
            assert(all[i] == items[i] && all[j] == items[j]);
        } else if i < items.len() {
            assert(all[i] == items[i]);
        } else {
            assert(all[j] == items[j]);
        }
    }
}

/// An item added under an id that no item has is what a search for that id finds.
pub proof fn lemma_find_after_add(items: Seq<ItemView>, item: ItemView)
    requires
        !has_id(items, item.id),
    ensures
        has_id(items.push(item), item.id),
        first_with_id(items.push(item), item.id) == items.len(),
        items.push(item)[first_with_id(items.push(item), item.id)] == item,
{
    let all = items.push(item);
    let n = items.len() as int;
    assert(all[n].id == item.id);
    assert(is_first_with_id(all, item.id, n)) by {
        assert forall|j: int| 0 <= j < n implies #[trigger] all[j].id != item.id by {
            assert(all[j] == items[j]);
        }
    }
    lemma_first_with_id(all, item.id);
    lemma_first_with_id_unique(all, item.id, n, first_with_id(all, item.id));
}

/// Removing, by its id, an item added under an id that no item had gives back
/// the items as they were, in the same order.
pub proof fn lemma_remove_after_add(items: Seq<ItemView>, item: ItemView)
    requires
        !has_id(items, item.id),
    ensures
        has_id(items.push(item), item.id),
        items.push(item).remove(first_with_id(items.push(item), item.id)) == items,
{
    lemma_find_after_add(items, item);
    assert(items.push(item).remove(items.len() as int) =~= items);
}

/// Where ids are unique, removing the item found by an id leaves no item with
/// that id, and the ids stay unique.
pub proof fn lemma_remove_leaves_no_item_with_id(items: Seq<ItemView>, id: Seq<char>)
    requires
        ids_unique(items),
        has_id(items, id),
    ensures
        !has_id(items.remove(first_with_id(items, id)), id),
        ids_unique(items.remove(first_with_id(items, id))),
{
    lemma_first_with_id(items, id);
    let f = first_with_id(items, id);
    let rest = items.remove(f);
    if has_id(rest, id) {
        let k = choose|k: int| 0 <= k < rest.len() && #[trigger] rest[k].id == id;
        if k < f {
            assert(rest[k] == items[k]);
        } else {
            assert(rest[k] == items[k + 1]);
            assert(items[k + 1].id != items[f].id);
        }
    }
    assert forall|i: int, j: int|
        0 <= i < rest.len() && 0 <= j < rest.len() && i != j implies #[trigger] rest[i].id != #[trigger] rest[j].id by {
        let a = if i < f { i } else { i + 1 };
        let b = if j < f { j } else { j + 1 };
        assert(rest[i] == items[a] && rest[j] == items[b]);
    }
}

/// An edit keeps the item's id, so it keeps the ids unique.
pub proof fn lemma_edit_keeps_ids_unique(
    items: Seq<ItemView>,
    id: Seq<char>,
    name: Option<Seq<char>>,
    provider: Option<Seq<char>>,
    quantity_left: Option<usize>,
    price_bits: Option<u32>,
)
    requires
        ids_unique(items),
        has_id(items, id),
        spec_edit_item(items[first_with_id(items, id)], name, provider, quantity_left, price_bits) is Ok,
    ensures
        ids_unique(items.update(
            first_with_id(items, id),
            spec_edit_item(items[first_with_id(items, id)], name, provider, quantity_left, price_bits)->Ok_0,
        )),
{
    lemma_first_with_id(items, id);
    let f = first_with_id(items, id);
    let all = items.update(f, spec_edit_item(items[f], name, provider, quantity_left, price_bits)->Ok_0);
    assert forall|i: int, j: int|
        0 <= i < all.len() && 0 <= j < all.len() && i != j implies #[trigger] all[i].id != #[trigger] all[j].id by {
        assert(all[i].id == items[i].id && all[j].id == items[j].id);
    }
}

/// Two item lists with the same ids, position by position, find an id at the same place.
pub proof fn lemma_same_ids(a: Seq<ItemView>, b: Seq<ItemView>, id: Seq<char>)
    requires
        a.len() == b.len(),
        forall|i: int| 0 <= i < a.len() ==> #[trigger] a[i].id == b[i].id,
    ensures
        has_id(a, id) == has_id(b, id),
        has_id(a, id) ==> first_with_id(a, id) == first_with_id(b, id),
{
    if has_id(a, id) {
        let i = choose|i: int| 0 <= i < a.len() && #[trigger] a[i].id == id;
        assert(b[i].id == id);
        lemma_first_with_id(a, id);
        lemma_first_with_id(b, id);
        let fa = first_with_id(a, id);
        let fb = first_with_id(b, id);
        assert(is_first_with_id(b, id, fa)) by {
            assert forall|j: int| 0 <= j < fa implies #[trigger] b[j].id != id by {
                assert(a[j].id != id);
            }
        }
        lemma_first_with_id_unique(b, id, fa, fb);
    } else if has_id(b, id) {
        let i = choose|i: int| 0 <= i < b.len() && #[trigger] b[i].id == id;
        assert(a[i].id == id);
    }
}

/// After a successful edit, the item found by the id is the edited one, in the
/// same place.
pub proof fn lemma_find_after_edit(items: Seq<ItemView>, id: Seq<char>, edited: ItemView)
    requires
        has_id(items, id),
        edited.id == items[first_with_id(items, id)].id,
    ensures
        has_id(items.update(first_with_id(items, id), edited), id),
        first_with_id(items.update(first_with_id(items, id), edited), id) == first_with_id(items, id),
        items.update(first_with_id(items, id), edited)[first_with_id(items, id)] == edited,
{
    lemma_first_with_id(items, id);
    let after = items.update(first_with_id(items, id), edited);
    assert forall|i: int| 0 <= i < after.len() implies #[trigger] after[i].id == items[i].id by {}
    lemma_same_ids(after, items, id);
}

/// An edit keeps the id of the item it changes.
pub proof fn lemma_edit_keeps_id(
    item: ItemView,
    name: Option<Seq<char>>,
    provider: Option<Seq<char>>,
    quantity_left: Option<usize>,
    price_bits: Option<u32>,
)
    requires
        spec_edit_item(item, name, provider, quantity_left, price_bits) is Ok,
    ensures
        spec_edit_item(item, name, provider, quantity_left, price_bits)->Ok_0.id == item.id,
{
}

/// An edit of the first item with an id that breaks no rule (no empty name or
/// provider given, no negative price given) succeeds; afterwards that item is
/// still the first with the id, carries exactly each field given, and keeps each
/// field not given. An empty name, an empty provider or a negative price given is
/// refused with its error, checked in that order.
pub proof fn lemma_edit_sets_given_fields(
    items: Seq<ItemView>,
    id: Seq<char>,
    name: Option<Seq<char>>,
    provider: Option<Seq<char>>,
    quantity_left: Option<usize>,
    price_bits: Option<u32>,
    f: int,
)
    requires
        is_first_with_id(items, id, f),
    ensures
        name is Some && name->0.len() == 0 ==> spec_edit_item(items[f], name, provider, quantity_left, price_bits)
            == Err::<ItemView, InventoryError>(InventoryError::EmptyName),
        (name is None || name->0.len() > 0) && provider is Some && provider->0.len() == 0 ==> spec_edit_item(
            items[f],
            name,
            provider,
            quantity_left,
            price_bits,
        ) == Err::<ItemView, InventoryError>(InventoryError::EmptyProvider),
        (name is None || name->0.len() > 0) && (provider is None || provider->0.len() > 0)
            && price_bits is Some && (0x8000_0001u32 <= price_bits->0 <= 0xff80_0000u32) ==> spec_edit_item(
            items[f],
            name,
            provider,
            quantity_left,
            price_bits,
        ) == Err::<ItemView, InventoryError>(InventoryError::NegativePrice(price_bits->0)),
        (name is None || name->0.len() > 0) && (provider is None || provider->0.len() > 0)
            && (price_bits is None || !(0x8000_0001u32 <= price_bits->0 <= 0xff80_0000u32)) ==> {
            &&& spec_edit_item(items[f], name, provider, quantity_left, price_bits) is Ok
            &&& {
                let after = items.update(f, spec_edit_item(items[f], name, provider, quantity_left, price_bits)->Ok_0);
                &&& after.len() == items.len()
                &&& is_first_with_id(after, id, f)
                &&& forall|j: int| 0 <= j < items.len() && j != f ==> #[trigger] after[j] == items[j]
                &&& (name matches Some(n) ==> after[f].name == n)
                &&& (name is None ==> after[f].name == items[f].name)
                &&& (provider matches Some(p) ==> after[f].provider == p)
                &&& (provider is None ==> after[f].provider == items[f].provider)
                &&& (quantity_left matches Some(q) ==> after[f].quantity_left == q)
                &&& (quantity_left is None ==> after[f].quantity_left == items[f].quantity_left)
                &&& (price_bits matches Some(b) ==> after[f].price_bits == b)
                &&& (price_bits is None ==> after[f].price_bits == items[f].price_bits)
            }
        },
{
    let r = spec_edit_item(items[f], name, provider, quantity_left, price_bits);
    if r is Ok {
        let after = items.update(f, r->Ok_0);
        assert forall|j: int| 0 <= j < f implies #[trigger] after[j].id != id by {
            assert(items[j].id != id);
        }
    }
}

/// Giving only a stock quantity, any quantity (zero included), always succeeds
/// and sets the stock to exactly it, all else unchanged.
pub proof fn lemma_edit_stock_only(item: ItemView, quantity: usize)
    ensures
        spec_edit_item(item, None, None, Some(quantity), None) == Ok::<ItemView, InventoryError>(
            ItemView { quantity_left: quantity, ..item },
        ),
{
}

/// An edit that gives no field succeeds and changes nothing.
pub proof fn lemma_empty_edit_changes_nothing(item: ItemView)
    ensures
        spec_edit_item(item, None, None, None, None) == Ok::<ItemView, InventoryError>(item),
{
}

/// The character of a letter-or-digit code from 0 to 61: the digits, then the
/// capital letters, then the small ones.
pub open spec fn id_char(d: int) -> char {
    if d < 10 {
        (d + 48) as char
    } else if d < 36 {
        (d + 55) as char
    } else {
        (d + 61) as char
    }
}

/// The last `len` base-62 digits of `k`, most significant first, as id characters.
pub open spec fn id_of_code(k: nat, len: nat) -> Seq<char>
    decreases len,
{
    if len == 0 {
        Seq::empty()
    } else {
        id_of_code(k / 62, (len - 1) as nat).push(id_char((k % 62) as int))
    }
}

/// 62 to the power `len`.
pub open spec fn pow62(len: nat) -> nat
    decreases len,
{
    if len == 0 {
        1
    } else {
        62 * pow62((len - 1) as nat)
    }
}

fn id_char_of(d: u64) -> (c: char)
    requires
        d < 62,
    ensures
        c == id_char(d as int),
{
    let b: u8 = d as u8;
    if b < 10 {
        (b + 48u8) as char
    } else if b < 36 {
        (b + 55u8) as char
    } else {
        (b + 61u8) as char
    }
}

/// Appends the id of code `k` with `len` characters.
fn push_id_code(s: &mut String, k: u64, len: usize)
    ensures
        final(s)@ == old(s)@ + id_of_code(k as nat, len as nat),
    decreases len,
{
    if len > 0 {
        push_id_code(s, k / 62, len - 1);
        crate::text::push_char(s, id_char_of(k % 62));
        assert(final(s)@ =~= old(s)@ + id_of_code(k as nat, len as nat));
    } else {
        assert(final(s)@ =~= old(s)@ + id_of_code(k as nat, len as nat));
    }
}

proof fn lemma_id_char(a: int, b: int)
    requires
        0 <= a < 62,
        0 <= b < 62,
    ensures
        is_ascii_alphanumeric(id_char(a)),
        id_char(a) == id_char(b) ==> a == b,
{
}

/// The id of a code has `len` characters, each a letter or a digit.
proof fn lemma_id_of_code_shape(k: nat, len: nat)
    ensures
        id_of_code(k, len).len() == len,
        forall|i: int| 0 <= i < len ==> is_ascii_alphanumeric(#[trigger] id_of_code(k, len)[i]),
    decreases len,
{
    if len > 0 {
        lemma_id_of_code_shape(k / 62, (len - 1) as nat);
        lemma_id_char((k % 62) as int, 0);
        let s = id_of_code(k, len);
        assert forall|i: int| 0 <= i < len implies is_ascii_alphanumeric(#[trigger] s[i]) by {
            if i < len - 1 {
                assert(s[i] == id_of_code(k / 62, (len - 1) as nat)[i]);
            }
        }
    }
}

proof fn lemma_div_62_below(a: nat, p: nat)
    requires
        a < 62 * p,
    ensures
        a / 62 < p,
{
    assert(a / 62 < p) by (nonlinear_arith)
        requires
            a < 62 * p,
    {
    }
}

/// Codes below 62 to the power `len` have distinct ids of `len` characters.
proof fn lemma_id_of_code_injective(a: nat, b: nat, len: nat)
    requires
        a < pow62(len),
        b < pow62(len),
        id_of_code(a, len) == id_of_code(b, len),
    ensures
        a == b,
    decreases len,
{
    if len > 0 {
        let sa = id_of_code(a, len);
        let sb = id_of_code(b, len);
        assert(sa.last() == sb.last());
        lemma_id_char((a % 62) as int, (b % 62) as int);
        assert(sa.drop_last() =~= id_of_code(a / 62, (len - 1) as nat));
        assert(sb.drop_last() =~= id_of_code(b / 62, (len - 1) as nat));
        lemma_div_62_below(a, pow62((len - 1) as nat));
        lemma_div_62_below(b, pow62((len - 1) as nat));
        lemma_id_of_code_injective(a / 62, b / 62, (len - 1) as nat);
    }
}

/// Items fewer than the ids of `ID_LENGTH` characters cannot hold all the ids
/// of the codes up to their number.
proof fn lemma_codes_not_all_taken(items: Seq<ItemView>)
    requires
        items.len() < Inventory::ID_SPACE,
        forall|j: nat| j <= items.len() ==> #[trigger] has_id(items, id_of_code(j, Inventory::ID_LENGTH as nat)),
    ensures
        items.len() + 1 <= items.len(),
{
    let len = Inventory::ID_LENGTH as nat;
    reveal_with_fuel(pow62, 9);
    assert(pow62(len) == Inventory::ID_SPACE);
    let n = items.len();
    let codes = Seq::new(n + 1, |j: int| id_of_code(j as nat, len));
    let ids = items.map_values(|it: ItemView| it.id);
    assert(codes.no_duplicates()) by {
        assert forall|i: int, j: int| 0 <= i < codes.len() && 0 <= j < codes.len() && i != j implies codes[i] != codes[j] by {
            if codes[i] == codes[j] {
                lemma_id_of_code_injective(i as nat, j as nat, len);
            }
        }
    }
    codes.unique_seq_to_set();
    ids.lemma_cardinality_of_set();
    assert forall|c: Seq<char>| codes.to_set().contains(c) implies ids.to_set().contains(c) by {
        let j = choose|j: int| 0 <= j < codes.len() && codes[j] == c;
        assert(has_id(items, id_of_code(j as nat, len)));
        let i = choose|i: int| 0 <= i < items.len() && #[trigger] items[i].id == id_of_code(j as nat, len);
        assert(ids[i] == c);
    }
    vstd::set_lib::lemma_len_subset(codes.to_set(), ids.to_set());
}

} // verus!

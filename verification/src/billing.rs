//! Bills drawn against an inventory: how many of each product is billed, the
//! rules a bill keeps, and how a confirmed bill takes its quantities out of stock.
use vstd::prelude::*;
use crate::inventory::{
    first_with_id, has_id, is_first_with_id, lemma_same_ids, Inventory, InventoryError, InventoryItem, ItemView,
};

verus! {

/// How many units of one product a bill holds.
#[derive(Clone, Copy)]
pub struct BillDetail {
    quantity: usize,
}

impl View for BillDetail {
    type V = usize;

    closed spec fn view(&self) -> usize {
        self.quantity
    }
}

impl BillDetail {
    pub fn new() -> (r: Self)
        ensures
            r@ == 0,
    {
        Self { quantity: 0 }
    }

    pub fn get_quantity(&self) -> (r: usize)
        ensures
            r == self@,
    {
        self.quantity
    }

    pub fn set_quantity(&mut self, quantity: usize)
        ensures
            final(self)@ == quantity,
    {
        self.quantity = quantity;
    }
}

/// A bill line: a product id and the quantity billed.
pub type Line = (Seq<char>, usize);

/// Whether some line bills the given id.
pub open spec fn has_line(lines: Seq<Line>, id: Seq<char>) -> bool {
    exists|i: int| 0 <= i < lines.len() && #[trigger] lines[i].0 == id
}

/// A position of a line that bills the given id (meaningful where `has_line` holds).
pub open spec fn line_of(lines: Seq<Line>, id: Seq<char>) -> int {
    choose|i: int| 0 <= i < lines.len() && #[trigger] lines[i].0 == id
}

/// The quantity billed for an id: that of its line, or zero.
pub open spec fn billed(lines: Seq<Line>, id: Seq<char>) -> int {
    if has_line(lines, id) {
        lines[line_of(lines, id)].1 as int
    } else {
        0
    }
}

/// The lines with the quantity of an id set: its line is changed in place, or a
/// new line is added at the end.
pub open spec fn with_billed(lines: Seq<Line>, id: Seq<char>, quantity: usize) -> Seq<Line> {
    if has_line(lines, id) {
        lines.update(line_of(lines, id), (id, quantity))
    } else {
        lines.push((id, quantity))
    }
}

/// The stock of the product with the given id.
pub open spec fn stock_of(stock: Seq<ItemView>, id: Seq<char>) -> int {
    stock[first_with_id(stock, id)].quantity_left as int
}

/// The rules a bill keeps: no product is billed on two lines, and every line
/// bills a product of the inventory, no more than its stock.
pub open spec fn bill_lines_valid(lines: Seq<Line>, stock: Seq<ItemView>) -> bool {
    &&& forall|i: int, j: int|
        0 <= i < lines.len() && 0 <= j < lines.len() && i != j ==> #[trigger] lines[i].0 != #[trigger] lines[j].0
    &&& forall|i: int|
        0 <= i < lines.len() ==> {
            &&& has_id(stock, #[trigger] lines[i].0)
            &&& lines[i].1 <= stock_of(stock, lines[i].0)
        }
}

/// Every line bills at least one unit.
pub open spec fn lines_positive(lines: Seq<Line>) -> bool {
    forall|i: int| 0 <= i < lines.len() ==> #[trigger] lines[i].1 >= 1
}

/// What a bill holds: its name, its lines in the order they were first billed,
/// and the stock it is drawn against.
pub struct BillView {
    pub name: Seq<char>,
    pub lines: Seq<Line>,
    pub stock: Seq<ItemView>,
}

/// The lines after billing `quantity` more units of `id`, or why that is refused.
pub open spec fn spec_add_quantity(bill: BillView, id: Seq<char>, quantity: usize) -> Result<Seq<Line>, InventoryError> {
    if quantity == 0 {
        Err(InventoryError::InvalidStock(quantity))
    } else if !has_id(bill.stock, id) {
        Err(InventoryError::ProductNotFound)
    } else if billed(bill.lines, id) + quantity > stock_of(bill.stock, id) {
        Err(InventoryError::NotEnoughStock((billed(bill.lines, id) + quantity) as usize))
    } else {
        Ok(with_billed(bill.lines, id, (billed(bill.lines, id) + quantity) as usize))
    }
}

/// A row of a bill's export: the product's id and name, the quantity billed and
/// the unit price as the bit pattern of its `f32`.
pub struct BillRow {
    pub id: String,
    pub name: String,
    pub quantity: usize,
    pub price_bits: u32,
}

/// The name a row gives a product that the inventory does not hold.
pub open spec fn unknown_product_name() -> Seq<char> {
    "(Desconocido)"@
}

/// The export row of a line: the product's own id, name and price where the
/// inventory holds it, else the line's id, the unknown name and a zero price.
pub open spec fn spec_row(stock: Seq<ItemView>, line: Line) -> (Seq<char>, Seq<char>, usize, u32) {
    if has_id(stock, line.0) {
        let it = stock[first_with_id(stock, line.0)];
        (it.id, it.name, line.1, it.price_bits)
    } else {
        (line.0, unknown_product_name(), line.1, 0u32)
    }
}

/// A bill under construction, drawn against an inventory that it borrows.
pub struct Bill<'a> {
    inventory: &'a Inventory,
    items: Vec<(String, BillDetail)>,
    name: String,
}

impl<'a> View for Bill<'a> {
    type V = BillView;

    closed spec fn view(&self) -> BillView {
        BillView {
            name: self.name@,
            lines: self.items@.map_values(|p: (String, BillDetail)| (p.0@, p.1@)),
            stock: self.inventory@,
        }
    }
}

impl<'a> Bill<'a> {
    /// Every bill keeps its rules (see `bill_lines_valid`).
    #[verifier::type_invariant]
    spec fn well_formed(self) -> bool {
        bill_lines_valid(self@.lines, self@.stock)
    }

    pub fn new(name: &str, inventory: &'a Inventory) -> (r: Self)
        ensures
            r@.name == name@,
            r@.lines == Seq::<Line>::empty(),
            r@.stock == inventory@,
            bill_lines_valid(r@.lines, r@.stock),
    {
        let r = Bill { name: name.to_owned(), inventory, items: Vec::new() };
        assert(r@.lines =~= Seq::<Line>::empty());
        r
    }

    pub fn get_name(&self) -> (r: &str)
        ensures
            r@ == self@.name,
    {
        self.name.as_str()
    }

    fn compatible_detail(item: &InventoryItem, detail: &BillDetail) -> (r: Result<(), InventoryError>)
        ensures
            detail@ > item@.quantity_left ==> r == Err::<(), InventoryError>(InventoryError::NotEnoughStock(detail@)),
            detail@ <= item@.quantity_left ==> r is Ok,
    {
        if detail.get_quantity() > item.get_quantity_left() {
            return Err(InventoryError::NotEnoughStock(detail.get_quantity()));
        }
        Ok(())
    }

    /// The position of the line that bills the given id.
    fn line_position(&self, id: &str) -> (r: Option<usize>)
        ensures
            match r {
                Some(i) => has_line(self@.lines, id@) && i == line_of(self@.lines, id@),
                None => !has_line(self@.lines, id@),
            },
    {
        proof {
            use_type_invariant(self);
        }
        let key = id.to_owned();
        let mut i: usize = 0;
        while i < self.items.len()
            invariant
                i <= self.items@.len(),
                key@ == id@,
                bill_lines_valid(self@.lines, self@.stock),
                forall|j: int| 0 <= j < i ==> #[trigger] self@.lines[j].0 != id@,
            decreases self.items@.len() - i,
        {
            if self.items[i].0 == key {
                proof {
                    assert(self@.lines[i as int].0 == id@);
                    assert(has_line(self@.lines, id@));
                    let k = line_of(self@.lines, id@);
                    assert(self@.lines[k].0 == id@);
                    if k != i {
                        assert(self@.lines[i as int].0 != self@.lines[k].0);
                    }
                }
                return Some(i);
            }
            i = i + 1;
        }
        None
    }

    /// Replaces the detail billed for a product of the inventory by what
    /// `update` makes of it (of a zero detail where none is billed yet), unless
    /// the product is unknown or the new quantity exceeds its stock.
    fn update_detail<F>(&mut self, id: &str, update: F) -> (r: Result<(), InventoryError>)
        where
            F: FnOnce(&BillDetail) -> BillDetail,
        requires
            has_id(old(self)@.stock, id@) ==> forall|d: BillDetail|
                d@ == billed(old(self)@.lines, id@) ==> call_requires(update, (&d,)),
        ensures
            !has_id(old(self)@.stock, id@) ==> r == Err::<(), InventoryError>(InventoryError::ProductNotFound)
                && final(self)@ == old(self)@,
            has_id(old(self)@.stock, id@) ==> exists|d: BillDetail, u: BillDetail| {
                &&& d@ == billed(old(self)@.lines, id@)
                &&& call_ensures(update, (&d,), u)
                &&& if u@ > stock_of(old(self)@.stock, id@) {
                    &&& r == Err::<(), InventoryError>(InventoryError::NotEnoughStock(u@))
                    &&& final(self)@ == old(self)@
                } else {
                    &&& r is Ok
                    &&& final(self)@ == (BillView { lines: with_billed(old(self)@.lines, id@, u@), ..old(self)@ })
                }
            },
    {
        proof {
            use_type_invariant(&*self);
        }
        let item: &InventoryItem = match self.inventory.find(id) {
            Some(i) => i,
            None => {
                return Err(InventoryError::ProductNotFound);
            },
        };
        let pos = self.line_position(id);
        let detail = match pos {
            Some(i) => self.items[i].1.clone(),
            None => BillDetail::new(),
        };
        let updated = update(&detail);
        Self::compatible_detail(item, &updated)?;
        let ghost old_lines = self@.lines;
        let ghost stock = self@.stock;
        proof {
            lemma_with_billed_valid(old_lines, stock, id@, updated@);
        }
        let mut items: Vec<(String, BillDetail)> = Vec::new();
        std::mem::swap(&mut items, &mut self.items);
        match pos {
            Some(i) => {
                items.set(i, (id.to_owned(), updated));
            },
            None => {
                items.push((id.to_owned(), updated));
            },
        }
        assert(items@.map_values(|p: (String, BillDetail)| (p.0@, p.1@)) =~= with_billed(old_lines, id@, updated@));
        self.items = items;
        Ok(())
    }

    /// Bills `quantity` more units of the product with the given id, within its stock.
    pub fn add_quantity(&mut self, id: &str, quantity: usize) -> (r: Result<(), InventoryError>)
        requires
            quantity == 0 || !has_id(old(self)@.stock, id@)
                || billed(old(self)@.lines, id@) + quantity <= usize::MAX,
        ensures
            bill_lines_valid(final(self)@.lines, final(self)@.stock),
            lines_positive(old(self)@.lines) ==> lines_positive(final(self)@.lines),
            match (r, spec_add_quantity(old(self)@, id@, quantity)) {
                (Ok(_), Ok(lines)) => final(self)@ == (BillView { lines, ..old(self)@ }),
                (Err(e), Err(f)) => e == f && final(self)@ == old(self)@,
                _ => false,
            },
    {
        proof {
            use_type_invariant(&*self);
        }
        if quantity == 0 {
            return Err(InventoryError::InvalidStock(quantity));
        }
        let r = self.update_detail(id, |detail: &BillDetail| -> (u: BillDetail)
            requires
                detail@ + quantity <= usize::MAX,
            ensures
                u@ == detail@ + quantity,
            {
                let mut detail = detail.clone();
                detail.set_quantity(detail.get_quantity() + quantity);
                detail
            });
        proof {
            use_type_invariant(&*self);
            let old_lines = old(self)@.lines;
            let new_quantity = (billed(old_lines, id@) + quantity) as usize;
            if r is Ok {
                lemma_with_billed(old_lines, id@, new_quantity, id@);
            }
        }
        r
    }

    pub fn is_empty(&self) -> (r: bool)
        ensures
            r == (self@.lines.len() == 0),
    {
        self.items.len() == 0
    }

    /// The lines of the bill: each product id with its quantity.
    pub fn iter_items(&self) -> (r: Vec<(&str, usize)>)
        ensures
            r@.len() == self@.lines.len(),
            forall|i: int| 0 <= i < r@.len() ==> (#[trigger] r@[i]).0@ == self@.lines[i].0 && r@[i].1 == self@.lines[i].1,
            bill_lines_valid(self@.lines, self@.stock),
    {
        proof {
            use_type_invariant(self);
        }
        let mut r: Vec<(&str, usize)> = Vec::new();
        let mut i: usize = 0;
        while i < self.items.len()
            invariant
                i <= self.items@.len(),
                r@.len() == i,
                forall|j: int| 0 <= j < i ==> (#[trigger] r@[j]).0@ == self@.lines[j].0 && r@[j].1 == self@.lines[j].1,
            decreases self.items@.len() - i,
        {
            r.push((self.items[i].0.as_str(), self.items[i].1.get_quantity()));
            i = i + 1;
        }
        r
    }

    /// The quantity billed for each product id, one entry per line.
    pub fn quantities_map(&self) -> (r: Vec<(String, usize)>)
        ensures
            r@.map_values(|p: (String, usize)| (p.0@, p.1)) == self@.lines,
            bill_lines_valid(self@.lines, self@.stock),
    {
        proof {
            use_type_invariant(self);
        }
        let mut r: Vec<(String, usize)> = Vec::new();
        let mut i: usize = 0;
        while i < self.items.len()
            invariant
                i <= self.items@.len(),
                r@.len() == i,
                forall|j: int| 0 <= j < i ==> (#[trigger] r@[j]).0@ == self@.lines[j].0 && r@[j].1 == self@.lines[j].1,
            decreases self.items@.len() - i,
        {
            r.push((self.items[i].0.clone(), self.items[i].1.get_quantity()));
            i = i + 1;
        }
        assert(r@.map_values(|p: (String, usize)| (p.0@, p.1)) =~= self@.lines);
        r
    }

    /// The export rows of the bill, one per line (see `spec_row`).
    pub fn csv_rows(&self) -> (r: Vec<BillRow>)
        ensures
            r@.len() == self@.lines.len(),
            forall|i: int| 0 <= i < r@.len() ==>
                ((#[trigger] r@[i]).id@, r@[i].name@, r@[i].quantity, r@[i].price_bits) == spec_row(self@.stock, self@.lines[i]),
    {
        let mut r: Vec<BillRow> = Vec::new();
        let mut i: usize = 0;
        while i < self.items.len()
            invariant
                i <= self.items@.len(),
                r@.len() == i,
                forall|j: int| 0 <= j < i ==>
                    ((#[trigger] r@[j]).id@, r@[j].name@, r@[j].quantity, r@[j].price_bits) == spec_row(self@.stock, self@.lines[j]),
            decreases self.items@.len() - i,
        {
            let quantity = self.items[i].1.get_quantity();
            let row = match self.inventory.find(self.items[i].0.as_str()) {
                Some(item) => BillRow {
                    id: item.get_id().to_owned(),
                    name: item.get_name().to_owned(),
                    quantity,
                    price_bits: item.get_price(),
                },
                None => {
                    proof {
                        reveal_strlit("(Desconocido)");
                    }
                    BillRow {
                        id: self.items[i].0.clone(),
                        name: "(Desconocido)".to_owned(),
                        quantity,
                        price_bits: 0,
                    }
                },
            };
            r.push(row);
            i = i + 1;
        }
        r
    }
}

/// Setting a product of the inventory to a quantity up to its stock keeps a
/// bill valid.
pub proof fn lemma_with_billed_valid(lines: Seq<Line>, stock: Seq<ItemView>, id: Seq<char>, quantity: usize)
    requires
        bill_lines_valid(lines, stock),
        has_id(stock, id),
        quantity <= stock_of(stock, id),
    ensures
        bill_lines_valid(with_billed(lines, id, quantity), stock),
{
    let n = with_billed(lines, id, quantity);
    if has_line(lines, id) {
        let k = line_of(lines, id);
        assert forall|i: int| 0 <= i < n.len() implies {
            &&& has_id(stock, #[trigger] n[i].0)
            &&& n[i].1 <= stock_of(stock, n[i].0)
        } by {
            if i != k {
                assert(n[i] == lines[i]);
            }
        }
    } else {
        assert forall|i: int, j: int|
            0 <= i < n.len() && 0 <= j < n.len() && i != j implies #[trigger] n[i].0 != #[trigger] n[j].0 by {
            if i < lines.len() && j < lines.len() {
                assert(n[i] == lines[i] && n[j] == lines[j]);
            } else if i < lines.len() {
                assert(n[i] == lines[i]);
            } else {
                assert(n[j] == lines[j]);
            }
        }
        assert forall|i: int| 0 <= i < n.len() implies {
            &&& has_id(stock, #[trigger] n[i].0)
            &&& n[i].1 <= stock_of(stock, n[i].0)
        } by {
            if i < lines.len() {
                assert(n[i] == lines[i]);
            }
        }
    }
}

/// The view of a list of billed quantities.
pub open spec fn lines_view(quantities: Seq<(String, usize)>) -> Seq<Line> {
    quantities.map_values(|p: (String, usize)| (p.0@, p.1))
}

/// The stock after taking out the billed quantities line by line, stopping at
/// the first line refused: one whose product is unknown, or whose quantity
/// exceeds the product's stock. Lines taken out before a refusal stay taken out.
pub open spec fn spec_apply_quantities(
    items: Seq<ItemView>,
    quantities: Seq<Line>,
) -> (Seq<ItemView>, Option<InventoryError>)
    decreases quantities.len(),
{
    if quantities.len() == 0 {
        (items, None)
    } else {
        let (after, err) = spec_apply_quantities(items, quantities.drop_last());
        if err is Some {
            (after, err)
        } else {
            let (id, quantity) = quantities.last();
            if !has_id(after, id) {
                (after, Some(InventoryError::ProductNotFound))
            } else if quantity > stock_of(after, id) {
                (after, Some(InventoryError::NotEnoughStock(quantity)))
            } else {
                let i = first_with_id(after, id);
                (after.update(i, ItemView { quantity_left: (after[i].quantity_left - quantity) as usize, ..after[i] }), None)
            }
        }
    }
}

/// Takes billed quantities out of the stock of the inventory, line by line
/// (see `spec_apply_quantities`).
pub fn apply_bill_quantities(
    inventory: &mut Inventory,
    quantities: &Vec<(String, usize)>,
) -> (r: Result<(), InventoryError>)
    ensures
        final(inventory)@ == spec_apply_quantities(old(inventory)@, lines_view(quantities@)).0,
        match r {
            Ok(_) => spec_apply_quantities(old(inventory)@, lines_view(quantities@)).1 is None,
            Err(e) => spec_apply_quantities(old(inventory)@, lines_view(quantities@)).1 == Some(e),
        },
{
    let ghost all = lines_view(quantities@);
    let mut k: usize = 0;
    while k < quantities.len()
        invariant
            k <= quantities@.len(),
            all == lines_view(quantities@),
            spec_apply_quantities(old(inventory)@, all.take(k as int)) == (inventory@, None::<InventoryError>),
        decreases quantities@.len() - k,
    {
        assert(all.take(k + 1).drop_last() =~= all.take(k as int));
        assert(all.take(k + 1).last() == all[k as int]);
        let quantity = quantities[k].1;
        let item = match inventory.find_mut(quantities[k].0.as_str()) {
            Some(item) => item,
            None => {
                proof {
                    lemma_take_rest_refused(old(inventory)@, all, k as int + 1);
                }
                return Err(InventoryError::ProductNotFound);
            },
        };
        if quantity > item.get_quantity_left() {
            proof {
                lemma_take_rest_refused(old(inventory)@, all, k as int + 1);
            }
            return Err(InventoryError::NotEnoughStock(quantity));
        }
        item.set_quantity_left(item.get_quantity_left() - quantity);
        k = k + 1;
    }
    assert(all.take(quantities@.len() as int) =~= all);
    Ok(())
}

/// Once a prefix of the lines is refused, the whole of them is refused the same way.
proof fn lemma_take_rest_refused(items: Seq<ItemView>, all: Seq<Line>, k: int)
    requires
        0 <= k <= all.len(),
        spec_apply_quantities(items, all.take(k)).1 is Some,
    ensures
        spec_apply_quantities(items, all) == spec_apply_quantities(items, all.take(k)),
    decreases all.len() - k,
{
    if k < all.len() {
        assert(all.take(k + 1).drop_last() =~= all.take(k));
        lemma_take_rest_refused(items, all, k + 1);
    } else {
        assert(all.take(k) =~= all);
    }
}

/// Taking quantities out of stock changes nothing but stock counts, and those
/// only downwards: the items keep their order, ids, names, providers and prices.
pub proof fn lemma_apply_changes_only_stock(items: Seq<ItemView>, quantities: Seq<Line>)
    ensures
        spec_apply_quantities(items, quantities).0.len() == items.len(),
        forall|i: int| 0 <= i < items.len() ==> {
            let after = #[trigger] spec_apply_quantities(items, quantities).0[i];
            &&& after == (ItemView { quantity_left: after.quantity_left, ..items[i] })
            &&& after.quantity_left <= items[i].quantity_left
        },
    decreases quantities.len(),
{
    if quantities.len() > 0 {
        lemma_apply_changes_only_stock(items, quantities.drop_last());
        let after = spec_apply_quantities(items, quantities.drop_last()).0;
        assert forall|i: int| 0 <= i < after.len() implies #[trigger] after[i].id == items[i].id by {}
        lemma_same_ids(after, items, quantities.last().0);
        if has_id(after, quantities.last().0) {
            crate::inventory::lemma_first_with_id(after, quantities.last().0);
        }
    }
}

/// The units billed for the item at position `i`: those of its id's line, where
/// `i` is the first item with that id, else none.
pub open spec fn billed_for_item(stock: Seq<ItemView>, lines: Seq<Line>, i: int) -> int {
    if i == first_with_id(stock, stock[i].id) {
        billed(lines, stock[i].id)
    } else {
        0
    }
}

/// No two lines bill the same id.
pub open spec fn lines_distinct(lines: Seq<Line>) -> bool {
    forall|i: int, j: int|
        0 <= i < lines.len() && 0 <= j < lines.len() && i != j ==> #[trigger] lines[i].0 != #[trigger] lines[j].0
}

proof fn lemma_line_of(lines: Seq<Line>, id: Seq<char>, j: int)
    requires
        lines_distinct(lines),
        0 <= j < lines.len(),
        lines[j].0 == id,
    ensures
        has_line(lines, id),
        line_of(lines, id) == j,
        billed(lines, id) == lines[j].1,
{
    assert(has_line(lines, id));
    let k = line_of(lines, id);
    if k != j {
        assert(lines[k].0 != lines[j].0);
    }
}

proof fn lemma_billed_push(lines: Seq<Line>, line: Line, id: Seq<char>)
    requires
        lines_distinct(lines.push(line)),
    ensures
        id == line.0 ==> billed(lines.push(line), id) == line.1 && billed(lines, id) == 0,
        id != line.0 ==> billed(lines.push(line), id) == billed(lines, id),
{
    let all = lines.push(line);
    if id == line.0 {
        lemma_line_of(all, id, lines.len() as int);
        if has_line(lines, id) {
            let k = line_of(lines, id);
            assert(all[k].0 == all[lines.len() as int].0);
        }
    } else if has_line(lines, id) {
        let k = line_of(lines, id);
        assert(all[k] == lines[k]);
        assert forall|i: int, j: int|
            0 <= i < lines.len() && 0 <= j < lines.len() && i != j implies #[trigger] lines[i].0 != #[trigger] lines[j].0 by {
            assert(all[i] == lines[i] && all[j] == lines[j]);
        }
        lemma_line_of(all, id, k);
        lemma_line_of(lines, id, k);
    } else {
        if has_line(all, id) {
            let k = line_of(all, id);
            assert(all[k] == lines[k]);
        }
    }
}

/// Every line bills a product of the stock, no more than that product has.
pub open spec fn lines_fit(lines: Seq<Line>, stock: Seq<ItemView>) -> bool {
    forall|i: int|
        0 <= i < lines.len() ==> {
            &&& has_id(stock, #[trigger] lines[i].0)
            &&& lines[i].1 <= stock_of(stock, lines[i].0)
        }
}

/// Lines that bill distinct products are taken out of the stock without refusal
/// exactly when each fits the stock as it was before; then each item's stock
/// drops by exactly the units billed for it, all else about the items staying
/// as it was.
pub proof fn lemma_distinct_lines_apply(stock: Seq<ItemView>, lines: Seq<Line>)
    requires
        lines_distinct(lines),
    ensures
        (spec_apply_quantities(stock, lines).1 is None) == lines_fit(lines, stock),
        lines_fit(lines, stock) ==> spec_apply_quantities(stock, lines).0.len() == stock.len(),
        lines_fit(lines, stock) ==> forall|i: int| 0 <= i < stock.len() ==> #[trigger] spec_apply_quantities(stock, lines).0[i] == (ItemView {
            quantity_left: (stock[i].quantity_left - billed_for_item(stock, lines, i)) as usize,
            ..stock[i]
        }),
    decreases lines.len(),
{
    if lines.len() == 0 {
        assert forall|i: int| 0 <= i < stock.len() implies #[trigger] spec_apply_quantities(stock, lines).0[i] == (ItemView {
            quantity_left: (stock[i].quantity_left - billed_for_item(stock, lines, i)) as usize,
            ..stock[i]
        }) by {
            assert(!has_line(lines, stock[i].id));
        }
    } else {
        let rest = lines.drop_last();
        let (id, quantity) = lines.last();
        let last = lines.len() - 1;
        assert(lines =~= rest.push((id, quantity)));
        assert forall|i: int| 0 <= i < rest.len() implies #[trigger] rest[i] == lines[i] by {}
        assert(lines_distinct(rest)) by {
            assert forall|i: int, j: int|
                0 <= i < rest.len() && 0 <= j < rest.len() && i != j implies #[trigger] rest[i].0 != #[trigger] rest[j].0 by {
                assert(rest[i] == lines[i] && rest[j] == lines[j]);
            }
        }
        lemma_distinct_lines_apply(stock, rest);
        if !lines_fit(rest, stock) {
            let k = choose|k: int| 0 <= k < rest.len() && !({
                &&& has_id(stock, #[trigger] rest[k].0)
                &&& rest[k].1 <= stock_of(stock, rest[k].0)
            });
            assert(lines[k] == rest[k]);
        } else {
            let after = spec_apply_quantities(stock, rest).0;
            assert forall|i: int| 0 <= i < after.len() implies #[trigger] after[i].id == stock[i].id by {}
            lemma_same_ids(after, stock, id);
            lemma_billed_push(rest, (id, quantity), id);
            if !has_id(stock, id) {
                assert(!lines_fit(lines, stock)) by {
                    assert(lines[last].0 == id);
                }
            } else {
                let f = first_with_id(stock, id);
                crate::inventory::lemma_first_with_id(stock, id);
                assert(stock[f].id == id);
                assert(billed_for_item(stock, rest, f) == 0);
                assert(after[f].quantity_left == stock[f].quantity_left);
                if quantity > stock_of(stock, id) {
                    assert(!lines_fit(lines, stock)) by {
                        assert(lines[last].0 == id);
                    }
                } else {
                    assert(lines_fit(lines, stock)) by {
                        assert forall|i: int| 0 <= i < lines.len() implies {
                            &&& has_id(stock, #[trigger] lines[i].0)
                            &&& lines[i].1 <= stock_of(stock, lines[i].0)
                        } by {
                            if i < rest.len() {
                                assert(lines[i] == rest[i]);
                            }
                        }
                    }
                    assert forall|i: int| 0 <= i < stock.len() implies #[trigger] spec_apply_quantities(stock, lines).0[i] == (ItemView {
                        quantity_left: (stock[i].quantity_left - billed_for_item(stock, lines, i)) as usize,
                        ..stock[i]
                    }) by {
                        lemma_billed_push(rest, (id, quantity), stock[i].id);
                        if i == f {
                            assert(billed_for_item(stock, lines, i) == quantity);
                        } else if stock[i].id == id {
                            assert(i != first_with_id(stock, stock[i].id));
                        } else {
                            assert(billed_for_item(stock, lines, i) == billed_for_item(stock, rest, i));
                        }
                    }
                }
            }
        }
    }
}

/// A valid bill can be taken out of the stock it was drawn against: no line is
/// refused, and each item's stock drops by exactly the units billed for it,
/// all else about the items staying as it was.
pub proof fn lemma_valid_bill_applies(stock: Seq<ItemView>, lines: Seq<Line>)
    requires
        bill_lines_valid(lines, stock),
    ensures
        spec_apply_quantities(stock, lines).1 is None,
        spec_apply_quantities(stock, lines).0.len() == stock.len(),
        forall|i: int| 0 <= i < stock.len() ==> #[trigger] spec_apply_quantities(stock, lines).0[i] == (ItemView {
            quantity_left: (stock[i].quantity_left - billed_for_item(stock, lines, i)) as usize,
            ..stock[i]
        }),
{
    assert(lines_fit(lines, stock));
    lemma_distinct_lines_apply(stock, lines);
}

/// Setting the quantity of an id in distinct lines keeps them distinct, makes
/// that id billed for exactly the quantity, and leaves every other id as it was.
pub proof fn lemma_with_billed(lines: Seq<Line>, id: Seq<char>, quantity: usize, x: Seq<char>)
    requires
        lines_distinct(lines),
    ensures
        lines_distinct(with_billed(lines, id, quantity)),
        has_line(with_billed(lines, id, quantity), x) == (has_line(lines, x) || x == id),
        billed(with_billed(lines, id, quantity), x) == if x == id { quantity as int } else { billed(lines, x) },
        with_billed(lines, id, quantity).len() >= lines.len(),
        with_billed(lines, id, quantity).len() > 0,
        lines_positive(lines) && quantity >= 1 ==> lines_positive(with_billed(lines, id, quantity)),
{
    let w = with_billed(lines, id, quantity);
    if has_line(lines, id) {
        let k = line_of(lines, id);
        assert forall|i: int| 0 <= i < w.len() implies #[trigger] w[i].0 == lines[i].0 by {}
        assert(lines_distinct(w)) by {
            assert forall|i: int, j: int|
                0 <= i < w.len() && 0 <= j < w.len() && i != j implies #[trigger] w[i].0 != #[trigger] w[j].0 by {
                assert(w[i].0 == lines[i].0 && w[j].0 == lines[j].0);
            }
        }
        if has_line(w, x) {
            let j = choose|j: int| 0 <= j < w.len() && #[trigger] w[j].0 == x;
            assert(lines[j].0 == x);
        }
        if has_line(lines, x) {
            let j = choose|j: int| 0 <= j < lines.len() && #[trigger] lines[j].0 == x;
            assert(w[j].0 == x);
        }
        if x == id {
            lemma_line_of(w, id, k);
        } else if has_line(lines, x) {
            let j = line_of(lines, x);
            assert(lines[j].0 == x);
            assert(w[j] == lines[j]);
            lemma_line_of(w, x, j);
            lemma_line_of(lines, x, j);
        }
        if lines_positive(lines) && quantity >= 1 {
            assert forall|i: int| 0 <= i < w.len() implies #[trigger] w[i].1 >= 1 by {
                if i != k {
                    assert(w[i] == lines[i]);
                }
            }
        }
    } else {
        assert(lines_distinct(w)) by {
            assert forall|i: int, j: int|
                0 <= i < w.len() && 0 <= j < w.len() && i != j implies #[trigger] w[i].0 != #[trigger] w[j].0 by {
                if i < lines.len() && j < lines.len() {
                    assert(w[i] == lines[i] && w[j] == lines[j]);
                } else if i < lines.len() {
                    assert(w[i] == lines[i]);
                } else {
                    assert(w[j] == lines[j]);
                }
            }
        }
        lemma_billed_push(lines, (id, quantity), x);
        if has_line(w, x) && x != id {
            let j = choose|j: int| 0 <= j < w.len() && #[trigger] w[j].0 == x;
            assert(w[j] == lines[j]);
        }
        if has_line(lines, x) {
            let j = choose|j: int| 0 <= j < lines.len() && #[trigger] lines[j].0 == x;
            assert(w[j].0 == x);
        }
        if x == id {
            assert(w[lines.len() as int].0 == id);
        }
        if lines_positive(lines) && quantity >= 1 {
            assert forall|i: int| 0 <= i < w.len() implies #[trigger] w[i].1 >= 1 by {
                if i < lines.len() {
                    assert(w[i] == lines[i]);
                }
            }
        }
    }
}

/// Setting the quantity of an id twice in distinct lines is setting it once, to
/// the second quantity.
proof fn lemma_with_billed_twice(lines: Seq<Line>, id: Seq<char>, v: usize, w: usize)
    requires
        lines_distinct(lines),
    ensures
        with_billed(with_billed(lines, id, v), id, w) == with_billed(lines, id, w),
{
    let once = with_billed(lines, id, v);
    lemma_with_billed(lines, id, v, id);
    if has_line(lines, id) {
        let k = line_of(lines, id);
        lemma_line_of(once, id, k);
        assert(once.update(k, (id, w)) =~= lines.update(k, (id, w)));
    } else {
        let n = lines.len() as int;
        assert(once[n].0 == id);
        lemma_line_of(once, id, n);
        assert(once.update(n, (id, w)) =~= lines.push((id, w)));
    }
}

/// Billing `a` and then `c` more units of a product succeeds exactly when
/// billing `a + c` at once does, and then leaves the same lines.
pub proof fn lemma_add_quantity_additive(bill: BillView, id: Seq<char>, a: usize, c: usize)
    requires
        lines_distinct(bill.lines),
        a > 0,
        c > 0,
        a + c <= usize::MAX,
    ensures
        ({
            let first = spec_add_quantity(bill, id, a);
            first is Ok && spec_add_quantity(BillView { lines: first->Ok_0, ..bill }, id, c) is Ok
        }) == (spec_add_quantity(bill, id, (a + c) as usize) is Ok),
        ({
            let first = spec_add_quantity(bill, id, a);
            first is Ok && spec_add_quantity(BillView { lines: first->Ok_0, ..bill }, id, c) is Ok
        }) ==> spec_add_quantity(BillView { lines: spec_add_quantity(bill, id, a)->Ok_0, ..bill }, id, c)->Ok_0
            == spec_add_quantity(bill, id, (a + c) as usize)->Ok_0,
{
    let b = billed(bill.lines, id);
    if has_id(bill.stock, id) && b + a <= stock_of(bill.stock, id) {
        lemma_with_billed(bill.lines, id, (b + a) as usize, id);
        lemma_with_billed_twice(bill.lines, id, (b + a) as usize, (b + a + c) as usize);
    }
}

/// The bill after a sequence of `add_quantity` calls: each call that succeeds
/// sets its lines, each refused call leaves the bill as it was.
pub open spec fn run_adds(bill: BillView, calls: Seq<Line>) -> BillView
    decreases calls.len(),
{
    if calls.len() == 0 {
        bill
    } else {
        let before = run_adds(bill, calls.drop_last());
        match spec_add_quantity(before, calls.last().0, calls.last().1) {
            Ok(lines) => BillView { lines, ..before },
            Err(_) => before,
        }
    }
}

/// The units of `x` that the calls that succeeded asked for.
pub open spec fn ok_total(bill: BillView, calls: Seq<Line>, x: Seq<char>) -> int
    decreases calls.len(),
{
    if calls.len() == 0 {
        0
    } else {
        let before = run_adds(bill, calls.drop_last());
        ok_total(bill, calls.drop_last(), x) + if calls.last().0 == x && spec_add_quantity(
            before,
            calls.last().0,
            calls.last().1,
        ) is Ok {
            calls.last().1 as int
        } else {
            0
        }
    }
}

/// How many of the calls succeeded.
pub open spec fn ok_count(bill: BillView, calls: Seq<Line>) -> nat
    decreases calls.len(),
{
    if calls.len() == 0 {
        0
    } else {
        let before = run_adds(bill, calls.drop_last());
        ok_count(bill, calls.drop_last()) + if spec_add_quantity(before, calls.last().0, calls.last().1) is Ok {
            1nat
        } else {
            0nat
        }
    }
}

/// After `add_quantity` calls on a new bill, each product is billed for the sum
/// of the quantities of its calls that succeeded, the products on the bill are
/// exactly those with a call that succeeded, and the bill is empty exactly when
/// no call succeeded.
pub proof fn lemma_bill_totals(bill: BillView, calls: Seq<Line>, x: Seq<char>)
    requires
        bill.lines.len() == 0,
    ensures
        lines_distinct(run_adds(bill, calls).lines),
        billed(run_adds(bill, calls).lines, x) == ok_total(bill, calls, x),
        has_line(run_adds(bill, calls).lines, x) == (ok_total(bill, calls, x) > 0),
        (run_adds(bill, calls).lines.len() == 0) == (ok_count(bill, calls) == 0),
        run_adds(bill, calls).name == bill.name,
        run_adds(bill, calls).stock == bill.stock,
    decreases calls.len(),
{
    if calls.len() == 0 {
        assert(!has_line(bill.lines, x));
    } else {
        let rest = calls.drop_last();
        let (id, q) = calls.last();
        lemma_bill_totals(bill, rest, x);
        lemma_bill_totals(bill, rest, id);
        let before = run_adds(bill, rest);
        if spec_add_quantity(before, id, q) is Ok {
            lemma_with_billed(before.lines, id, (billed(before.lines, id) + q) as usize, x);
        }
    }
}

/// Billing a product: zero units are refused, a product the inventory does not
/// hold is refused, and billing `quantity >= 1` more units of a product it holds
/// succeeds exactly when the units already billed for it plus `quantity` are
/// within its stock (that of the first item with its id). On success the
/// product's billed units grow by exactly `quantity`, every other product's stay,
/// and the rest of the bill is unchanged; on refusal the error names the total asked.
pub proof fn lemma_add_quantity_within_stock(
    bill: BillView,
    id: Seq<char>,
    quantity: usize,
    f: int,
    x: Seq<char>,
)
    requires
        lines_distinct(bill.lines),
        is_first_with_id(bill.stock, id, f),
    ensures
        spec_add_quantity(bill, id, 0) == Err::<Seq<Line>, InventoryError>(InventoryError::InvalidStock(0)),
        quantity >= 1 ==> ((spec_add_quantity(bill, id, quantity) is Ok) == (billed(bill.lines, id) + quantity
            <= bill.stock[f].quantity_left)),
        quantity >= 1 && billed(bill.lines, id) + quantity > bill.stock[f].quantity_left ==> spec_add_quantity(
            bill,
            id,
            quantity,
        ) == Err::<Seq<Line>, InventoryError>(
            InventoryError::NotEnoughStock((billed(bill.lines, id) + quantity) as usize),
        ),
        spec_add_quantity(bill, id, quantity) is Ok ==> {
            let lines = spec_add_quantity(bill, id, quantity)->Ok_0;
            &&& billed(lines, id) == billed(bill.lines, id) + quantity
            &&& x != id ==> billed(lines, x) == billed(bill.lines, x)
            &&& has_line(lines, x) == (has_line(bill.lines, x) || x == id)
            &&& lines_distinct(lines)
        },
{
    crate::inventory::lemma_first_with_id(bill.stock, id);
    crate::inventory::lemma_first_with_id_unique(bill.stock, id, f, first_with_id(bill.stock, id));
    if spec_add_quantity(bill, id, quantity) is Ok {
        let v = (billed(bill.lines, id) + quantity) as usize;
        lemma_with_billed(bill.lines, id, v, x);
        lemma_with_billed(bill.lines, id, v, id);
    }
}

/// Billing a product the inventory does not hold is refused, whatever the quantity
/// (other than zero, which is refused first).
pub proof fn lemma_add_quantity_unknown_product(bill: BillView, id: Seq<char>, quantity: usize)
    requires
        !has_id(bill.stock, id),
        quantity >= 1,
    ensures
        spec_add_quantity(bill, id, quantity) == Err::<Seq<Line>, InventoryError>(InventoryError::ProductNotFound),
{
}

/// The export row of a line whose product the inventory holds carries the line's
/// id and quantity and the name and unit price of the first item with that id;
/// the row of a line whose product it does not hold carries the line's id and
/// quantity, the unknown name and a zero price.
pub proof fn lemma_row_of_line(stock: Seq<ItemView>, line: Line, f: int)
    requires
        is_first_with_id(stock, line.0, f),
    ensures
        spec_row(stock, line) == (line.0, stock[f].name, line.1, stock[f].price_bits),
{
    crate::inventory::lemma_first_with_id(stock, line.0);
    crate::inventory::lemma_first_with_id_unique(stock, line.0, f, first_with_id(stock, line.0));
}

/// The export row of a line whose product the inventory does not hold.
pub proof fn lemma_row_of_unknown_line(stock: Seq<ItemView>, line: Line)
    requires
        !has_id(stock, line.0),
    ensures
        spec_row(stock, line) == (line.0, "(Desconocido)"@, line.1, 0u32),
{
}

} // verus!

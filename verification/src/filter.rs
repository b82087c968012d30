//! The log filter: which processes' lines are shown.
//!
//! The filter is always on. Its selection is the set of names whose lines are
//! rendered, and every change applies the moment it happens: there is no
//! commit step and nothing to revert. Blank lines (those with an empty name)
//! always pass.
//!
//! The panel lists the known names, narrowed by a typed query. Without a query
//! the list starts with a row that stands for all names at once.
use crate::fuzzy::{fuzzy_matches, matches_query};
use crate::names::{
    copy_names, has_name, insert_sorted, sorted_names, strictly_sorted, views, NameSet,
};
use crate::output::LIFECYCLE_EVENT_NAME;
use crate::text::same;
use std::collections::hash_map::DefaultHasher;
use std::hash::Hasher;
use vstd::prelude::*;
use vstd::std_specs::hash::DefaultHasherAdditionalSpecFns;
use vstd::utf8::encode_utf8;

verus! {

/// A row of the filter list.
#[derive(Debug)]
pub enum FilterRow {
    /// The row that stands for every name at once. It only appears when the
    /// query is empty.
    All,
    /// A known name.
    Name(String),
}

/// A row of the filter list, as contracts speak of it.
pub enum RowView {
    All,
    Name(Seq<char>),
}

impl View for FilterRow {
    type V = RowView;

    open spec fn view(&self) -> RowView {
        match self {
            FilterRow::All => RowView::All,
            FilterRow::Name(name) => RowView::Name(name@),
        }
    }
}

/// The rows of a list.
pub open spec fn row_views(rows: Seq<FilterRow>) -> Seq<RowView> {
    Seq::new(rows.len(), |i: int| rows[i]@)
}

/// Which part of the filter panel owns the keyboard.
#[derive(Debug, Clone, Copy, PartialEq, Eq, Structural)]
pub enum FilterFocus {
    /// The query input owns character keys.
    Query,
    /// The list owns navigation and selection keys.
    List,
}

/// The rows for the names of a list that match a query and are not hidden.
pub open spec fn name_rows(
    names: Seq<Seq<char>>,
    query: Seq<char>,
    hidden: Set<Seq<char>>,
) -> Seq<RowView>
    decreases names.len(),
{
    if names.len() == 0 {
        Seq::empty()
    } else {
        let before = name_rows(names.drop_last(), query, hidden);
        if matches_query(query, names.last()) && !hidden.contains(names.last()) {
            before.push(RowView::Name(names.last()))
        } else {
            before
        }
    }
}

/// The rows of the panel: all names first while there is no query, then the
/// names that match and are not hidden.
pub open spec fn panel_rows(
    names: Seq<Seq<char>>,
    query: Seq<char>,
    hidden: Set<Seq<char>>,
) -> Seq<RowView> {
    if query.len() == 0 {
        seq![RowView::All] + name_rows(names, query, hidden)
    } else {
        name_rows(names, query, hidden)
    }
}

/// Builds the rows of the panel.
pub fn build_rows(all_names: &Vec<String>, query: &str, hidden_from_display: &NameSet) -> (r: Vec<
    FilterRow,
>)
    ensures
        row_views(r@) == panel_rows(views(all_names@), query@, hidden_from_display@),
{
    let mut rows: Vec<FilterRow> = Vec::new();
    if query.is_empty() {
        rows.push(FilterRow::All);
    }
    let ghost head = row_views(rows@);
    let ghost all = views(all_names@);
    let mut i: usize = 0;
    proof {
        assert(all.take(0) =~= Seq::<Seq<char>>::empty());
        assert(head =~= head + Seq::<RowView>::empty());
        if query@.len() == 0 {
            assert(head =~= seq![RowView::All]);
        } else {
            assert(head =~= Seq::<RowView>::empty());
        }
    }
    while i < all_names.len()
        invariant
            i <= all_names@.len(),
            all == views(all_names@),
            row_views(rows@) == head + name_rows(
                all.take(i as int),
                query@,
                hidden_from_display@,
            ),
        decreases all_names@.len() - i,
    {
        proof {
            assert(all.take(i + 1).drop_last() =~= all.take(i as int));
            assert(all.take(i + 1).last() == all_names@[i as int]@);
        }
        if fuzzy_matches(query, all_names[i].as_str()) && !hidden_from_display.contains(
            all_names[i].as_str(),
        ) {
            let ghost before = rows@;
            let row = FilterRow::Name(all_names[i].clone());
            rows.push(row);
            proof {
                assert(row_views(rows@) =~= row_views(before).push(row@));
                assert(row_views(rows@) =~= head + name_rows(
                    all.take(i + 1),
                    query@,
                    hidden_from_display@,
                ));
            }
        }
        i += 1;
    }
    proof {
        assert(all.take(all_names@.len() as int) =~= all);
        assert(row_views(rows@) =~= panel_rows(all, query@, hidden_from_display@));
    }
    rows
}

/// Every shown name is a known one, and not hidden.
pub proof fn lemma_rows_are_known(
    names: Seq<Seq<char>>,
    query: Seq<char>,
    hidden: Set<Seq<char>>,
    i: int,
)
    requires
        0 <= i < name_rows(names, query, hidden).len(),
    ensures
        match name_rows(names, query, hidden)[i] {
            RowView::Name(name) => names.contains(name) && !hidden.contains(name) && matches_query(
                query,
                name,
            ),
            RowView::All => false,
        },
    decreases names.len(),
{
    let before = name_rows(names.drop_last(), query, hidden);
    if i < before.len() {
        lemma_rows_are_known(names.drop_last(), query, hidden, i);
        match before[i] {
            RowView::Name(name) => {
                let k = names.drop_last().index_of(name);
                assert(names[k] == name);
            },
            RowView::All => {},
        }
    } else {
        assert(names[names.len() - 1] == names.last());
    }
}

/// The state of the filter, as contracts speak of it.
#[verifier::ext_equal]
pub struct FilterView {
    /// Every filterable name, sorted, each once.
    pub names: Seq<Seq<char>>,
    /// Names the panel leaves out.
    pub hidden: Set<Seq<char>>,
    /// The selection that a reset restores.
    pub defaults: Set<Seq<char>>,
    /// The typed query.
    pub query: Seq<char>,
    /// What owns the keyboard.
    pub focus: FilterFocus,
    /// The selection.
    pub active: Set<Seq<char>>,
    /// The highlighted row.
    pub highlight: int,
}

impl FilterView {
    /// The state with another selection.
    pub open spec fn showing(self, active: Set<Seq<char>>) -> FilterView {
        FilterView { active, ..self }
    }

    /// The rows of the panel.
    pub open spec fn rows(self) -> Seq<RowView> {
        panel_rows(self.names, self.query, self.hidden)
    }

    /// This state with its highlight back at the top if it fell off the end.
    pub open spec fn clamped(self) -> FilterView {
        if self.highlight < self.rows().len() {
            self
        } else {
            FilterView { highlight: 0, ..self }
        }
    }

    /// Whether every known name is selected.
    pub open spec fn shows_everything(self) -> bool {
        self.names.to_set().subset_of(self.active)
    }

    /// Whether a line under this name is shown.
    pub open spec fn lets(self, name: Seq<char>) -> bool {
        name.len() == 0 || self.active.contains(name)
    }

    /// The highlighted row.
    pub open spec fn highlighted(self) -> Option<RowView> {
        if self.highlight < self.rows().len() {
            Some(self.rows()[self.highlight])
        } else {
            None
        }
    }
}

/// Filter state, persistent across mode switches.
#[derive(Debug)]
pub struct FilterState {
    all_names: Vec<String>,
    hidden_from_display: NameSet,
    default_selected: NameSet,
    query: String,
    rows: Vec<FilterRow>,
    focus: FilterFocus,
    active_selected: NameSet,
    highlight: usize,
}

impl View for FilterState {
    type V = FilterView;

    closed spec fn view(&self) -> FilterView {
        FilterView {
            names: views(self.all_names@),
            hidden: self.hidden_from_display@,
            defaults: self.default_selected@,
            query: self.query@,
            focus: self.focus,
            active: self.active_selected@,
            highlight: self.highlight as int,
        }
    }
}

/// The names of a list that a command line asks for, and don's own.
pub open spec fn asked_for(names: Set<Seq<char>>, allow: Set<Seq<char>>) -> Set<Seq<char>> {
    names.intersect(allow.insert(LIFECYCLE_EVENT_NAME@))
}

/// The eight bytes of a number, lowest first.
pub open spec fn number_bytes(n: u64) -> Seq<u8> {
    seq![
        (n % 256) as u8,
        (n / 256 % 256) as u8,
        (n / 65536 % 256) as u8,
        (n / 16777216 % 256) as u8,
        (n / 4294967296 % 256) as u8,
        (n / 1099511627776 % 256) as u8,
        (n / 281474976710656 % 256) as u8,
        (n / 72057594037927936 % 256) as u8,
    ]
}

/// The eight bytes of a number, lowest first.
pub fn bytes_of_number(n: u64) -> (r: Vec<u8>)
    ensures
        r@ == number_bytes(n),
{
    let mut out: Vec<u8> = Vec::new();
    out.push((n % 256) as u8);
    out.push((n / 256 % 256) as u8);
    out.push((n / 65536 % 256) as u8);
    out.push((n / 16777216 % 256) as u8);
    out.push((n / 4294967296 % 256) as u8);
    out.push((n / 1099511627776 % 256) as u8);
    out.push((n / 281474976710656 % 256) as u8);
    out.push((n / 72057594037927936 % 256) as u8);
    assert(out@ =~= number_bytes(n));
    out
}

/// The hash of one name.
pub open spec fn name_hash(name: Seq<char>) -> u64 {
    DefaultHasher::spec_finish(seq![encode_utf8(name), seq![255u8]])
}

/// The sum of the hashes of a list of names.
pub open spec fn hash_sum(names: Seq<Seq<char>>) -> int
    decreases names.len(),
{
    if names.len() == 0 {
        0
    } else {
        hash_sum(names.drop_last()) + name_hash(names.last())
    }
}

proof fn lemma_hash_sum_remove(names: Seq<Seq<char>>, i: int)
    requires
        0 <= i < names.len(),
    ensures
        hash_sum(names) == hash_sum(names.remove(i)) + name_hash(names[i]),
    decreases names.len(),
{
    if i == names.len() - 1 {
        assert(names.remove(i) =~= names.drop_last());
    } else {
        lemma_hash_sum_remove(names.drop_last(), i);
        assert(names.remove(i).drop_last() =~= names.drop_last().remove(i));
        assert(names.remove(i).last() == names.last());
    }
}

/// The sum does not depend on the order in which a set is listed.
pub proof fn hash_sum_has_no_order(a: Seq<Seq<char>>, b: Seq<Seq<char>>)
    requires
        a.no_duplicates(),
        b.no_duplicates(),
        a.to_set() == b.to_set(),
    ensures
        hash_sum(a) == hash_sum(b),
        a.len() == b.len(),
    decreases a.len(),
{
    a.unique_seq_to_set();
    b.unique_seq_to_set();
    if a.len() > 0 {
        let last = a.last();
        assert(a[a.len() - 1] == last);
        assert(a.to_set().contains(last));
        assert(b.to_set().contains(last));
        let i = b.index_of(last);
        lemma_hash_sum_remove(b, i);
        let x = a.drop_last();
        let y = b.remove(i);
        assert forall|n: Seq<char>| x.contains(n) <==> y.contains(n) by {
            if x.contains(n) {
                let k = x.index_of(n);
                assert(a[k] == n && a[k] != a[a.len() - 1]);
                assert(a.to_set().contains(n));
                assert(b.to_set().contains(n));
                let m = b.index_of(n);
                assert(y[if m < i {
                    m
                } else {
                    m - 1
                }] == n);
            }
            if y.contains(n) {
                let k = y.index_of(n);
                let m = if k < i {
                    k
                } else {
                    k + 1
                };
                assert(b[m] == n && b[m] != b[i]);
                assert(b.to_set().contains(n));
                assert(a.to_set().contains(n));
                let p = a.index_of(n);
                assert(x[p] == n);
            }
        }
        assert(x.to_set() =~= y.to_set());
        assert(y.no_duplicates()) by {
            assert forall|p: int, q: int|
                0 <= p < y.len() && 0 <= q < y.len() && p != q implies y[p] != y[q] by {
                let s = if p < i {
                    p
                } else {
                    p + 1
                };
                let t = if q < i {
                    q
                } else {
                    q + 1
                };
                assert(b[s] != b[t]);
            }
        }
        hash_sum_has_no_order(x, y);
    }
}

/// A list of the members of a set.
pub open spec fn a_listing(s: Set<Seq<char>>) -> Seq<Seq<char>> {
    choose|list: Seq<Seq<char>>| list.no_duplicates() && list.to_set() == s
}

/// What the filter writes into a hasher: the sum of the hashes of the selected
/// names, and how many there are.
pub open spec fn filter_writes(active: Set<Seq<char>>) -> Seq<Seq<u8>> {
    let list = a_listing(active);
    seq![
        number_bytes((hash_sum(list) % 0x1_0000_0000_0000_0000) as u64),
        number_bytes(list.len() as u64),
    ]
}

impl FilterState {
    #[verifier::type_invariant]
    spec fn coherent(self) -> bool {
        &&& strictly_sorted(views(self.all_names@))
        &&& row_views(self.rows@) == panel_rows(
            views(self.all_names@),
            self.query@,
            self.hidden_from_display@,
        )
        &&& self.highlight == 0 || self.highlight < self.rows@.len()
    }

    /// The filter over a list of names. Without a command-line choice the
    /// selection is every name that is not hidden; with one it is the names it
    /// asks for, and don's own. A reset restores it.
    pub fn new(
        all_names: Vec<String>,
        hidden: &NameSet,
        cli_override: Option<&NameSet>,
    ) -> (r: FilterState)
        ensures
            strictly_sorted(r@.names),
            r@.names.to_set() == views(all_names@).to_set(),
            r@.hidden == Set::<Seq<char>>::empty(),
            r@.active == (match cli_override {
                Some(allow) => asked_for(views(all_names@).to_set(), allow@),
                None => views(all_names@).to_set().difference(hidden@),
            }),
            r@.defaults == r@.active,
            r@.query.len() == 0,
            r@.focus == FilterFocus::List,
            r@.highlight == 0,
    {
        let names = sorted_names(&all_names);
        let mut selected = NameSet::new();
        let ghost all = views(names@);
        let ghost wanted = match cli_override {
            Some(allow) => allow@.insert(LIFECYCLE_EVENT_NAME@),
            None => hidden@.complement(),
        };
        let mut i: usize = 0;
        assert(selected@ =~= all.take(0).to_set().intersect(wanted));
        while i < names.len()
            invariant
                i <= names@.len(),
                all == views(names@),
                wanted == (match cli_override {
                    Some(allow) => allow@.insert(LIFECYCLE_EVENT_NAME@),
                    None => hidden@.complement(),
                }),
                selected@ == all.take(i as int).to_set().intersect(wanted),
            decreases names@.len() - i,
        {
            let name = names[i].as_str();
            let take = match cli_override {
                Some(allow) => allow.contains(name) || same(name, LIFECYCLE_EVENT_NAME),
                None => !hidden.contains(name),
            };
            let ghost before = selected@;
            if take {
                let _new = selected.insert(name);
            }
            proof {
                assert(take == wanted.contains(name@));
                crate::names::lemma_take_set(all, i as int);
                assert(all[i as int] == name@);
                assert(selected@ =~= all.take(i + 1).to_set().intersect(wanted));
            }
            i += 1;
        }
        proof {
            assert(all.take(names@.len() as int) =~= all);
            match cli_override {
                Some(allow) => {},
                None => {
                    assert(selected@ =~= all.to_set().difference(hidden@));
                },
            }
        }
        let hidden_from_display = NameSet::new();
        let rows = build_rows(&names, "", &hidden_from_display);
        let active_selected = selected.copy();
        proof {
            reveal_strlit("");
            assert(""@ =~= Seq::<char>::empty());
        }
        FilterState {
            all_names: names,
            hidden_from_display,
            default_selected: selected,
            query: String::new(),
            rows,
            focus: FilterFocus::List,
            active_selected,
            highlight: 0,
        }
    }

    fn rebuilt(
        all_names: Vec<String>,
        hidden_from_display: NameSet,
        default_selected: NameSet,
        query: String,
        focus: FilterFocus,
        active_selected: NameSet,
        highlight: usize,
    ) -> (r: FilterState)
        requires
            strictly_sorted(views(all_names@)),
        ensures
            r@ == (FilterView {
                names: views(all_names@),
                hidden: hidden_from_display@,
                defaults: default_selected@,
                query: query@,
                focus,
                active: active_selected@,
                highlight: highlight as int,
            }).clamped(),
    {
        let rows = build_rows(&all_names, query.as_str(), &hidden_from_display);
        let at: usize = if highlight < rows.len() {
            highlight
        } else {
            0
        };
        FilterState {
            all_names,
            hidden_from_display,
            default_selected,
            query,
            rows,
            focus,
            active_selected,
            highlight: at,
        }
    }

    /// A filter in the same state.
    pub fn copy(&self) -> (r: FilterState)
        ensures
            r@ == self@,
    {
        proof {
            use_type_invariant(self);
        }
        let r = FilterState::rebuilt(
            copy_names(&self.all_names),
            self.hidden_from_display.copy(),
            self.default_selected.copy(),
            self.query.clone(),
            self.focus,
            self.active_selected.copy(),
            self.highlight,
        );
        assert(r@ =~= self@);
        r
    }

    fn with_active(&mut self, active: NameSet)
        ensures
            final(self)@ == (FilterView { active: active@, ..old(self)@ }),
    {
        proof {
            use_type_invariant(&*self);
        }
        self.active_selected = active;
    }

    /// Replaces the names the panel leaves out.
    pub fn set_hidden_from_display(&mut self, hidden: NameSet)
        ensures
            final(self)@ == (FilterView { hidden: hidden@, ..old(self)@ }).clamped(),
    {
        proof {
            use_type_invariant(&*self);
        }
        if self.hidden_from_display.same_as(&hidden) {
            assert(self@ =~= (FilterView { hidden: hidden@, ..self@ }).clamped());
            return;
        }
        let next = FilterState::rebuilt(
            copy_names(&self.all_names),
            hidden,
            self.default_selected.copy(),
            self.query.clone(),
            self.focus,
            self.active_selected.copy(),
            self.highlight,
        );
        *self = next;
    }

    fn all_within_active(&self) -> (r: bool)
        ensures
            r == self@.shows_everything(),
    {
        let mut i: usize = 0;
        while i < self.all_names.len()
            invariant
                i <= self.all_names@.len(),
                forall|j: int|
                    0 <= j < i ==> self.active_selected@.contains(#[trigger] self.all_names@[j]@),
            decreases self.all_names@.len() - i,
        {
            if !self.active_selected.contains(self.all_names[i].as_str()) {
                proof {
                    let name = self.all_names@[i as int]@;
                    assert(views(self.all_names@)[i as int] == name);
                    assert(self@.names.to_set().contains(name));
                }
                return false;
            }
            i += 1;
        }
        assert forall|n: Seq<char>| self@.names.to_set().contains(n) implies self@.active.contains(
            n,
        ) by {
            let j = self@.names.index_of(n);
            assert(self.all_names@[j]@ == n);
        }
        true
    }

    /// Whether the selection hides any name.
    pub fn is_active(&self) -> (r: bool)
        ensures
            r == !self@.shows_everything(),
    {
        !self.all_within_active()
    }

    /// Feeds everything that [`FilterState::passes`] depends on into a hasher.
    pub fn fingerprint(&self, hasher: &mut DefaultHasher)
        ensures
            final(hasher)@ == old(hasher)@ + filter_writes(self@.active),
    {
        let n: usize = self.active_selected.len();
        let mut sum: u64 = 0;
        let mut i: usize = 0;
        let ghost order = self.active_selected.order();
        assert(order.take(0) =~= Seq::<Seq<char>>::empty());
        while i < n
            invariant
                i <= n,
                n == order.len(),
                order == self.active_selected.order(),
                sum as int == hash_sum(order.take(i as int)) % 0x1_0000_0000_0000_0000,
            decreases n - i,
        {
            let name = self.active_selected.at(i);
            let mut one = DefaultHasher::new();
            one.write(name.as_bytes());
            let mut end: Vec<u8> = Vec::new();
            end.push(255);
            one.write(end.as_slice());
            proof {
                assert(end@ =~= seq![255u8]);
                assert(one@ =~= seq![encode_utf8(name@), seq![255u8]]);
                assert(order.take(i + 1).drop_last() =~= order.take(i as int));
                assert(order.take(i + 1).last() == name@);
            }
            let hash: u64 = one.finish();
            sum = sum.wrapping_add(hash);
            proof {
                let total = hash_sum(order.take(i as int));
                vstd::arithmetic::div_mod::lemma_add_mod_noop(
                    total,
                    hash as int,
                    0x1_0000_0000_0000_0000,
                );
            }
            i += 1;
        }
        proof {
            assert(order.take(n as int) =~= order);
            let list = a_listing(self@.active);
            assert(order.no_duplicates() && order.to_set() == self@.active);
            hash_sum_has_no_order(order, list);
        }
        let first = bytes_of_number(sum);
        let second = bytes_of_number(n as u64);
        hasher.write(first.as_slice());
        hasher.write(second.as_slice());
        assert(hasher@ =~= old(hasher)@ + filter_writes(self@.active));
    }

    /// Whether a line under this name is shown. Blank lines always are.
    pub fn passes(&self, name: &str) -> (r: bool)
        ensures
            r == self@.lets(name@),
    {
        if name.is_empty() {
            return true;
        }
        self.active_selected.contains(name)
    }

    /// Takes note of a process the filter has not seen before.
    ///
    /// A newcomer belongs in the defaults, so a reset shows it. It joins the
    /// selection only when the filter was showing everything: a reader who has
    /// narrowed to one process did not ask for whatever turned up next.
    pub fn learn_name(&mut self, name: &str)
        ensures
            name@.len() == 0 || old(self)@.names.contains(name@) ==> final(self)@ == old(self)@,
            name@.len() > 0 && !old(self)@.names.contains(name@) ==> {
                &&& strictly_sorted(final(self)@.names)
                &&& final(self)@.names.to_set() == old(self)@.names.to_set().insert(name@)
                &&& final(self)@ == (FilterView {
                    names: final(self)@.names,
                    defaults: old(self)@.defaults.insert(name@),
                    active: if old(self)@.shows_everything() {
                        old(self)@.active.insert(name@)
                    } else {
                        old(self)@.active
                    },
                    ..old(self)@
                }).clamped()
            },
    {
        proof {
            use_type_invariant(&*self);
        }
        if name.is_empty() || has_name(&self.all_names, name) {
            return;
        }
        let showed_everything = self.all_within_active();
        let mut names = copy_names(&self.all_names);
        let _new = insert_sorted(&mut names, name);
        let mut defaults = self.default_selected.copy();
        let _new_default = defaults.insert(name);
        let mut active = self.active_selected.copy();
        if showed_everything {
            let _new_active = active.insert(name);
        }
        let next = FilterState::rebuilt(
            names,
            self.hidden_from_display.copy(),
            defaults,
            self.query.clone(),
            self.focus,
            active,
            self.highlight,
        );
        *self = next;
    }

    /// Shows only `name`, returning the selection it replaced.
    ///
    /// `None` when `name` is not filterable or the selection is already exactly
    /// it, so that no restore point is recorded for a narrowing that did not
    /// happen.
    pub fn narrow_to(&mut self, name: &str) -> (r: Option<NameSet>)
        ensures
            r is None <==> !old(self)@.names.contains(name@) || old(self)@.active == set![name@],
            r is None ==> final(self)@ == old(self)@,
            r matches Some(previous) ==> previous@ == old(self)@.active && final(self)@
                == old(self)@.showing(set![name@]),
    {
        if !has_name(&self.all_names, name) {
            return None;
        }
        let mut only = NameSet::new();
        let _new = only.insert(name);
        assert(only@ =~= set![name@]);
        if self.active_selected.same_as(&only) {
            return None;
        }
        let previous = self.active_selected.copy();
        self.with_active(only);
        Some(previous)
    }

    /// Puts back a selection that [`FilterState::narrow_to`] replaced.
    pub fn restore(&mut self, previous: NameSet)
        ensures
            final(self)@ == old(self)@.showing(previous@),
    {
        self.with_active(previous);
    }

    /// Adds a name to the selection. Says whether that made the filter more
    /// permissive.
    pub fn select_name(&mut self, name: &str) -> (r: bool)
        ensures
            r == (old(self)@.names.contains(name@) && !old(self)@.active.contains(name@)),
            final(self)@ == (if old(self)@.names.contains(name@) {
                FilterView { active: old(self)@.active.insert(name@), ..old(self)@ }
            } else {
                old(self)@
            }),
    {
        if !has_name(&self.all_names, name) {
            return false;
        }
        let mut active = self.active_selected.copy();
        let new = active.insert(name);
        self.with_active(active);
        new
    }

    /// Opens the panel's list fresh: query cleared, highlight at the top. What
    /// the panel shows is the filter, so the selection stays.
    pub fn enter_edit(&mut self)
        ensures
            final(self)@ == (FilterView {
                query: Seq::empty(),
                focus: FilterFocus::List,
                highlight: 0,
                ..old(self)@
            }),
    {
        self.reset_edit_state();
    }

    /// Resets the selection to the defaults. Says whether it changed.
    pub fn reset_to_defaults(&mut self) -> (r: bool)
        ensures
            r == (old(self)@.active != old(self)@.defaults),
            final(self)@ == (FilterView { active: old(self)@.defaults, ..old(self)@ }),
    {
        if self.active_selected.same_as(&self.default_selected) {
            return false;
        }
        let defaults = self.default_selected.copy();
        self.with_active(defaults);
        true
    }

    /// Typed characters go into the query from now on.
    pub fn begin_query_edit(&mut self)
        ensures
            final(self)@ == (FilterView { focus: FilterFocus::Query, ..old(self)@ }),
    {
        proof {
            use_type_invariant(&*self);
        }
        self.focus = FilterFocus::Query;
    }

    /// Back to the list, keeping the query.
    pub fn end_query_edit(&mut self)
        ensures
            final(self)@ == (FilterView { focus: FilterFocus::List, ..old(self)@ }),
    {
        proof {
            use_type_invariant(&*self);
        }
        self.focus = FilterFocus::List;
    }

    /// Selects what the query shows; an empty query selects everything.
    pub fn apply_query(&mut self)
        ensures
            final(self)@ == (FilterView {
                active: if old(self)@.query.len() == 0 {
                    old(self)@.names.to_set()
                } else {
                    shown_names(old(self)@.rows())
                },
                ..old(self)@
            }),
    {
        proof {
            use_type_invariant(&*self);
        }
        if self.query.as_str().is_empty() {
            let everything = NameSet::of(&self.all_names);
            self.with_active(everything);
            return;
        }
        let mut shown = NameSet::new();
        let mut i: usize = 0;
        let ghost all = row_views(self.rows@);
        assert(shown_names(all.take(0)) =~= Set::<Seq<char>>::empty());
        while i < self.rows.len()
            invariant
                i <= self.rows@.len(),
                all == row_views(self.rows@),
                shown@ == shown_names(all.take(i as int)),
            decreases self.rows@.len() - i,
        {
            proof {
                lemma_shown_names(all, i as int);
                assert(all[i as int] == self.rows@[i as int]@);
            }
            match &self.rows[i] {
                FilterRow::Name(name) => {
                    let _new = shown.insert(name.as_str());
                },
                FilterRow::All => {},
            }
            i += 1;
        }
        assert(all.take(self.rows@.len() as int) =~= all);
        self.with_active(shown);
    }

    /// Whether the query narrows to exactly one name, so that one key can apply
    /// it and close.
    pub fn query_has_single_match(&self) -> (r: bool)
        ensures
            r == (self@.query.len() > 0 && self@.rows().len() == 1),
    {
        proof {
            use_type_invariant(self);
        }
        !self.query.as_str().is_empty() && self.rows.len() == 1
    }

    /// Whether keystrokes go into the query.
    pub fn query_editing(&self) -> (r: bool)
        ensures
            r == (self@.focus == FilterFocus::Query),
    {
        self.focus == FilterFocus::Query
    }

    /// What owns the keyboard.
    pub fn focus(&self) -> (r: FilterFocus)
        ensures
            r == self@.focus,
    {
        self.focus
    }

    fn set_query(&mut self, query: String)
        ensures
            final(self)@ == (FilterView { query: query@, ..old(self)@ }).clamped(),
    {
        proof {
            use_type_invariant(&*self);
        }
        let next = FilterState::rebuilt(
            copy_names(&self.all_names),
            self.hidden_from_display.copy(),
            self.default_selected.copy(),
            query,
            self.focus,
            self.active_selected.copy(),
            self.highlight,
        );
        *self = next;
    }

    /// One more character of the query.
    pub fn push_query_char(&mut self, c: char)
        ensures
            final(self)@ == (FilterView { query: old(self)@.query.push(c), ..old(self)@ }).clamped(),
    {
        let mut query = self.query.clone();
        query.push(c);
        self.set_query(query);
    }

    /// Takes the last character off the query, if there is one.
    pub fn pop_query_char(&mut self)
        ensures
            final(self)@ == (if old(self)@.query.len() == 0 {
                old(self)@
            } else {
                (FilterView { query: old(self)@.query.drop_last(), ..old(self)@ }).clamped()
            }),
    {
        let mut query = self.query.clone();
        match query.pop() {
            Some(_) => {
                self.set_query(query);
            },
            None => {},
        }
    }

    /// Moves the highlight up, from the top to the bottom.
    pub fn highlight_prev(&mut self)
        ensures
            final(self)@ == (FilterView {
                highlight: if old(self)@.rows().len() == 0 {
                    old(self)@.highlight
                } else if old(self)@.highlight == 0 {
                    old(self)@.rows().len() - 1
                } else {
                    old(self)@.highlight - 1
                },
                ..old(self)@
            }),
    {
        proof {
            use_type_invariant(&*self);
        }
        let n: usize = self.rows.len();
        if n == 0 {
            return;
        }
        self.highlight = if self.highlight == 0 {
            n - 1
        } else {
            self.highlight - 1
        };
    }

    /// Moves the highlight down, from the bottom to the top.
    pub fn highlight_next(&mut self)
        ensures
            final(self)@ == (FilterView {
                highlight: if old(self)@.rows().len() == 0 {
                    old(self)@.highlight
                } else if old(self)@.highlight + 1 >= old(self)@.rows().len() {
                    0
                } else {
                    old(self)@.highlight + 1
                },
                ..old(self)@
            }),
    {
        proof {
            use_type_invariant(&*self);
        }
        let n: usize = self.rows.len();
        if n == 0 {
            return;
        }
        self.highlight = if self.highlight >= n - 1 {
            0
        } else {
            self.highlight + 1
        };
    }

    /// Flips the highlighted row: one name in or out, or every name.
    pub fn toggle_highlighted(&mut self)
        ensures
            final(self)@ == (FilterView { active: toggled(old(self)@), ..old(self)@ }),
    {
        proof {
            use_type_invariant(&*self);
        }
        if self.highlight >= self.rows.len() {
            return;
        }
        assert(self@.rows()[self.highlight as int] == self.rows@[self.highlight as int]@);
        let mut active = self.active_selected.copy();
        match &self.rows[self.highlight] {
            FilterRow::Name(name) => {
                if active.contains(name.as_str()) {
                    let _gone = active.remove(name.as_str());
                } else {
                    let _new = active.insert(name.as_str());
                }
            },
            FilterRow::All => {
                if self.all_selected_in_edit() {
                    active = NameSet::new();
                } else {
                    add_all(&mut active, &self.all_names);
                }
            },
        }
        self.with_active(active);
    }

    /// Selects the highlighted row alone.
    pub fn select_only_highlighted(&mut self)
        ensures
            final(self)@ == (FilterView {
                active: match old(self)@.highlighted() {
                    Some(RowView::Name(name)) => set![name],
                    Some(RowView::All) => old(self)@.names.to_set(),
                    None => Set::empty(),
                },
                ..old(self)@
            }),
    {
        proof {
            use_type_invariant(&*self);
        }
        let mut active = NameSet::new();
        if self.highlight < self.rows.len() {
            assert(self@.rows()[self.highlight as int] == self.rows@[self.highlight as int]@);
            match &self.rows[self.highlight] {
                FilterRow::Name(name) => {
                    let _new = active.insert(name.as_str());
                    assert(active@ =~= set![name@]);
                },
                FilterRow::All => {
                    active = NameSet::of(&self.all_names);
                },
            }
        }
        self.with_active(active);
    }

    /// What was typed.
    pub fn query(&self) -> (r: &str)
        ensures
            r@ == self@.query,
    {
        self.query.as_str()
    }

    /// The rows that are held ready for drawing.
    pub closed spec fn listed(&self) -> Seq<RowView> {
        row_views(self.rows@)
    }

    /// The rows of the panel.
    pub fn rows(&self) -> (r: &Vec<FilterRow>)
        ensures
            row_views(r@) == self.listed(),
            row_views(r@) == self@.rows(),
    {
        proof {
            use_type_invariant(self);
        }
        &self.rows
    }

    /// The highlighted row.
    pub fn highlight(&self) -> (r: usize)
        ensures
            r as int == self@.highlight,
            r == 0 || r < self@.rows().len(),
    {
        proof {
            use_type_invariant(self);
        }
        self.highlight
    }

    /// Whether a name is selected.
    pub fn is_edit_selected(&self, name: &str) -> (r: bool)
        ensures
            r == self@.active.contains(name@),
    {
        self.active_selected.contains(name)
    }

    /// Whether every name is selected, and there is one.
    pub fn all_selected_in_edit(&self) -> (r: bool)
        ensures
            r == (self@.names.len() > 0 && self@.shows_everything()),
    {
        self.all_names.len() > 0 && self.all_within_active()
    }

    /// The selected names, sorted.
    pub fn active_names(&self) -> (r: Vec<String>)
        ensures
            strictly_sorted(views(r@)),
            views(r@).to_set() == self@.active,
    {
        let n: usize = self.active_selected.len();
        let mut out: Vec<String> = Vec::new();
        let ghost order = self.active_selected.order();
        let mut i: usize = 0;
        proof {
            assert(views(out@) =~= Seq::<Seq<char>>::empty());
            assert(order.take(0).to_set() =~= views(out@).to_set());
        }
        while i < n
            invariant
                i <= n,
                n == order.len(),
                order == self.active_selected.order(),
                strictly_sorted(views(out@)),
                views(out@).to_set() == order.take(i as int).to_set(),
            decreases n - i,
        {
            let name = self.active_selected.at(i);
            let _new = insert_sorted(&mut out, name);
            proof {
                crate::names::lemma_take_set(order, i as int);
            }
            i += 1;
        }
        assert(order.take(n as int) =~= order);
        out
    }

    /// Rebuilds the rows; the highlight goes back to the top if it fell off.
    /// No change leaves the rows behind, so this shows what was shown before.
    pub fn recompute_rows(&mut self)
        ensures
            final(self).listed() == old(self)@.rows(),
            final(self)@ == old(self)@.clamped(),
            final(self)@ == old(self)@,
    {
        proof {
            use_type_invariant(&*self);
        }
        let rows = build_rows(&self.all_names, self.query.as_str(), &self.hidden_from_display);
        self.rows = rows;
        if self.highlight >= self.rows.len() {
            self.highlight = 0;
        }
        assert(self@ =~= old(self)@);
    }

    fn reset_edit_state(&mut self)
        ensures
            final(self)@ == (FilterView {
                query: Seq::empty(),
                focus: FilterFocus::List,
                highlight: 0,
                ..old(self)@
            }),
    {
        proof {
            use_type_invariant(&*self);
        }
        let next = FilterState::rebuilt(
            copy_names(&self.all_names),
            self.hidden_from_display.copy(),
            self.default_selected.copy(),
            String::new(),
            FilterFocus::List,
            self.active_selected.copy(),
            0,
        );
        *self = next;
    }

    /// Drops the query and returns to the list. The selection it produced
    /// stays.
    pub fn clear_query(&mut self)
        ensures
            final(self)@ == (FilterView {
                query: Seq::empty(),
                focus: FilterFocus::List,
                highlight: 0,
                ..old(self)@
            }),
    {
        self.reset_edit_state();
    }
}

fn add_all(set: &mut NameSet, names: &Vec<String>)
    ensures
        final(set)@ == old(set)@.union(views(names@).to_set()),
{
    let ghost all = views(names@);
    let ghost before = set@;
    let mut i: usize = 0;
    assert(set@ =~= before.union(all.take(0).to_set()));
    while i < names.len()
        invariant
            i <= names@.len(),
            all == views(names@),
            set@ == before.union(all.take(i as int).to_set()),
        decreases names@.len() - i,
    {
        let _new = set.insert(names[i].as_str());
        proof {
            crate::names::lemma_take_set(all, i as int);
            assert(set@ =~= before.union(all.take(i + 1).to_set()));
        }
        i += 1;
    }
    assert(all.take(names@.len() as int) =~= all);
}

/// The selection after the highlighted row is flipped.
pub open spec fn toggled(state: FilterView) -> Set<Seq<char>> {
    match state.highlighted() {
        Some(RowView::Name(name)) => if state.active.contains(name) {
            state.active.remove(name)
        } else {
            state.active.insert(name)
        },
        Some(RowView::All) => if state.names.len() > 0 && state.shows_everything() {
            Set::empty()
        } else {
            state.active.union(state.names.to_set())
        },
        None => state.active,
    }
}

/// The names among a list of rows.
pub open spec fn shown_names(rows: Seq<RowView>) -> Set<Seq<char>> {
    Set::new(|name: Seq<char>| rows.contains(RowView::Name(name)))
}

proof fn lemma_shown_names(rows: Seq<RowView>, i: int)
    requires
        0 <= i < rows.len(),
    ensures
        shown_names(rows.take(i + 1)) == (match rows[i] {
            RowView::Name(name) => shown_names(rows.take(i)).insert(name),
            RowView::All => shown_names(rows.take(i)),
        }),
{
    let want = match rows[i] {
        RowView::Name(name) => shown_names(rows.take(i)).insert(name),
        RowView::All => shown_names(rows.take(i)),
    };
    assert forall|name: Seq<char>| #[trigger]
        shown_names(rows.take(i + 1)).contains(name) == want.contains(name) by {
        let row = RowView::Name(name);
        if rows.take(i + 1).contains(row) {
            let k = rows.take(i + 1).index_of(row);
            if k < i {
                assert(rows.take(i)[k] == row);
            }
        }
        if rows.take(i).contains(row) {
            let k = rows.take(i).index_of(row);
            assert(rows.take(i + 1)[k] == row);
        }
        assert(rows.take(i + 1)[i] == rows[i]);
    }
    assert(shown_names(rows.take(i + 1)) =~= want);
}

/// Narrowing to one name is reversible: putting back what it returned gives
/// the state before it.
pub proof fn narrowing_is_reversible(before: FilterView, name: Seq<char>)
    ensures
        before.showing(set![name]).showing(before.active) == before,
{
}

/// Flipping a name's row twice gives back the selection.
pub proof fn toggling_a_name_twice_changes_nothing(state: FilterView, name: Seq<char>)
    requires
        state.highlighted() == Some(RowView::Name(name)),
    ensures
        toggled(FilterView { active: toggled(state), ..state }) == state.active,
{
    let once = FilterView { active: toggled(state), ..state };
    assert(once.highlighted() == state.highlighted());
    assert(toggled(once) =~= state.active);
}

/// The row for all names goes from everything to nothing and back.
pub proof fn the_all_row_flips_between_everything_and_nothing(state: FilterView)
    requires
        state.highlighted() == Some(RowView::All),
        state.names.len() > 0,
        state.active == state.names.to_set(),
    ensures
        toggled(state) == Set::<Seq<char>>::empty(),
        toggled(FilterView { active: toggled(state), ..state }) == state.active,
{
    let once = FilterView { active: toggled(state), ..state };
    assert(once.highlighted() == state.highlighted());
    assert(state.names.contains(state.names[0]));
    assert(state.names.to_set().contains(state.names[0]));
    assert(!once.shows_everything());
    assert(toggled(once) =~= state.active);
}

/// The panel lists every name that is not left out and that the query finds, and
/// no other; where there is no query a row for everything stands above them.
pub proof fn the_panel_lists_what_the_query_finds(state: FilterView, name: Seq<char>)
    ensures
        state.rows().contains(RowView::Name(name)) <==> state.names.contains(name)
            && !state.hidden.contains(name) && matches_query(state.query, name),
        state.query.len() == 0 ==> state.rows().len() > 0 && state.rows()[0] == RowView::All,
        state.query.len() > 0 ==> !state.rows().contains(RowView::All),
{
    lemma_name_rows(state.names, state.query, state.hidden, name);
    let rows = name_rows(state.names, state.query, state.hidden);
    let all = state.rows();
    if state.query.len() == 0 {
        if all.contains(RowView::Name(name)) {
            let i = choose|i: int| 0 <= i < all.len() && all[i] == RowView::Name(name);
            assert(rows[i - 1] == all[i]);
        }
        if rows.contains(RowView::Name(name)) {
            let i = choose|i: int| 0 <= i < rows.len() && rows[i] == RowView::Name(name);
            assert(all[i + 1] == rows[i]);
        }
    } else if all.contains(RowView::All) {
        let i = choose|i: int| 0 <= i < all.len() && all[i] == RowView::All;
        lemma_rows_are_known(state.names, state.query, state.hidden, i);
    }
}

proof fn lemma_name_rows(
    names: Seq<Seq<char>>,
    query: Seq<char>,
    hidden: Set<Seq<char>>,
    name: Seq<char>,
)
    ensures
        name_rows(names, query, hidden).contains(RowView::Name(name)) <==> names.contains(name)
            && !hidden.contains(name) && matches_query(query, name),
    decreases names.len(),
{
    if names.len() > 0 {
        let front = names.drop_last();
        let rows = name_rows(names, query, hidden);
        let before = name_rows(front, query, hidden);
        lemma_name_rows(front, query, hidden, name);
        if rows.contains(RowView::Name(name)) {
            let i = choose|i: int| 0 <= i < rows.len() && rows[i] == RowView::Name(name);
            if i < before.len() {
                assert(before[i] == rows[i]);
                let k = choose|k: int| 0 <= k < front.len() && front[k] == name;
                assert(names[k] == name);
            } else {
                assert(names[names.len() - 1] == name);
            }
        }
        if names.contains(name) && !hidden.contains(name) && matches_query(query, name) {
            let k = choose|k: int| 0 <= k < names.len() && names[k] == name;
            if k < front.len() {
                assert(front[k] == name);
                let i = choose|i: int| 0 <= i < before.len() && before[i] == RowView::Name(name);
                assert(rows[i] == before[i]);
            } else {
                assert(rows.last() == RowView::Name(name));
            }
        }
    }
}

/// The row for everything shows everything where something is hidden, and hides
/// everything where all is shown.
pub proof fn the_row_for_everything_turns_all_on_or_off(state: FilterView, name: Seq<char>)
    requires
        state.highlighted() == Some(RowView::All),
    ensures
        !state.shows_everything() && state.names.contains(name) ==> toggled(state).contains(name),
        state.names.len() > 0 && state.shows_everything() ==> !toggled(state).contains(name),
        state.names.contains(name) && !state.active.contains(name) ==> !state.shows_everything(),
{
    assert(state.names.to_set().contains(name) <==> state.names.contains(name));
}

/// A line is let through when its name is among those shown, and so is a line
/// that has no name.
pub proof fn lines_are_let_through_by_name(state: FilterView, name: Seq<char>)
    ensures
        name.len() > 0 ==> (state.lets(name) <==> state.active.contains(name)),
        name.len() == 0 ==> state.lets(name),
{
}

/// What is asked for on the command line is shown with the runner's own lines,
/// as far as it is known.
pub proof fn the_runners_own_lines_are_always_asked_for(
    names: Set<Seq<char>>,
    allow: Set<Seq<char>>,
    name: Seq<char>,
)
    ensures
        asked_for(names, allow).contains(name) <==> names.contains(name) && (allow.contains(name)
            || name == LIFECYCLE_EVENT_NAME@),
{
}

/// A number is written as its eight bytes, so two numbers are never written
/// alike.
pub proof fn numbers_are_written_apart(a: u64, b: u64)
    requires
        number_bytes(a) == number_bytes(b),
    ensures
        a == b,
{
    lemma_bytes_sum(a);
    lemma_bytes_sum(b);
    assert forall|i: int| 0 <= i < 8 implies number_bytes(a)[i] == number_bytes(b)[i] by {}
    assert(number_bytes(a)[0] == number_bytes(b)[0]);
    assert(number_bytes(a)[1] == number_bytes(b)[1]);
    assert(number_bytes(a)[2] == number_bytes(b)[2]);
    assert(number_bytes(a)[3] == number_bytes(b)[3]);
    assert(number_bytes(a)[4] == number_bytes(b)[4]);
    assert(number_bytes(a)[5] == number_bytes(b)[5]);
    assert(number_bytes(a)[6] == number_bytes(b)[6]);
    assert(number_bytes(a)[7] == number_bytes(b)[7]);
}

proof fn lemma_bytes_sum(n: u64)
    ensures
        n == number_bytes(n)[0] + 256 * number_bytes(n)[1] + 65536 * number_bytes(n)[2] + 16777216
            * number_bytes(n)[3] + 4294967296 * number_bytes(n)[4] + 1099511627776 * number_bytes(
            n,
        )[5] + 281474976710656 * number_bytes(n)[6] + 72057594037927936 * number_bytes(n)[7],
{
    let n0 = n as int;
    let n1 = n0 / 256;
    let n2 = n1 / 256;
    let n3 = n2 / 256;
    let n4 = n3 / 256;
    let n5 = n4 / 256;
    let n6 = n5 / 256;
    let n7 = n6 / 256;
    vstd::arithmetic::div_mod::lemma_div_denominator(n0, 256, 256);
    vstd::arithmetic::div_mod::lemma_div_denominator(n0, 65536, 256);
    vstd::arithmetic::div_mod::lemma_div_denominator(n0, 16777216, 256);
    vstd::arithmetic::div_mod::lemma_div_denominator(n0, 4294967296, 256);
    vstd::arithmetic::div_mod::lemma_div_denominator(n0, 1099511627776, 256);
    vstd::arithmetic::div_mod::lemma_div_denominator(n0, 281474976710656, 256);
    assert(n2 == n0 / 65536);
    assert(n3 == n0 / 16777216);
    assert(n4 == n0 / 4294967296);
    assert(n5 == n0 / 1099511627776);
    assert(n6 == n0 / 281474976710656);
    assert(n7 == n0 / 72057594037927936);
    assert(n0 == 256 * n1 + n0 % 256);
    assert(n1 == 256 * n2 + n1 % 256);
    assert(n2 == 256 * n3 + n2 % 256);
    assert(n3 == 256 * n4 + n3 % 256);
    assert(n4 == 256 * n5 + n4 % 256);
    assert(n5 == 256 * n6 + n5 % 256);
    assert(n6 == 256 * n7 + n6 % 256);
    assert(0 <= n7 < 256);
    assert(n7 % 256 == n7);
}

} // verus!

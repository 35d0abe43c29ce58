//! The registry of named units and the line protocol that drives it.
use vstd::prelude::*;

use crate::cells::{counter_next, max_next, Counter, MaxCell};
use crate::gadget::Gadget;
use crate::text::{
    format_i32, i32_value, int_text, join_from, join_spaced, parse_i32, same_text, split_words,
    texts, words,
};

verus! {

/// What a registered unit holds: its kind and its value.
pub enum UnitView {
    Counter(i32),
    MaxCell(i32),
}

/// The value a unit reports.
pub open spec fn unit_value(u: UnitView) -> i32 {
    match u {
        UnitView::Counter(v) => v,
        UnitView::MaxCell(v) => v,
    }
}

/// A registry's contents: names with their units, in order of first insertion.
pub type Entries = Seq<(Seq<char>, UnitView)>;

/// The index of the entry named `name`, or -1.
pub open spec fn entry_index(reg: Entries, name: Seq<char>) -> int
    decreases reg.len(),
{
    if reg.len() == 0 {
        -1
    } else if reg.last().0 == name {
        reg.len() - 1
    } else {
        entry_index(reg.drop_last(), name)
    }
}

proof fn lemma_entry_index(reg: Entries, name: Seq<char>)
    ensures
        -1 <= entry_index(reg, name) < reg.len(),
        entry_index(reg, name) >= 0 ==> reg[entry_index(reg, name)].0 == name,
        entry_index(reg, name) == -1 ==> forall|i: int| 0 <= i < reg.len() ==> reg[i].0 != name,
    decreases reg.len(),
{
    if reg.len() > 0 {
        lemma_entry_index(reg.drop_last(), name);
        if entry_index(reg, name) == -1 {
            assert forall|i: int| 0 <= i < reg.len() implies reg[i].0 != name by {
                if i < reg.len() - 1 {
                    assert(reg[i] == reg.drop_last()[i]);
                }
            }
        }
    }
}

/// Whether no two entries of `reg` share a name.
pub open spec fn names_unique(reg: Entries) -> bool {
    forall|i: int, j: int| 0 <= i < j < reg.len() ==> reg[i].0 != reg[j].0
}

proof fn lemma_insert_keeps_names_unique(reg: Entries, name: Seq<char>, u: UnitView)
    requires
        names_unique(reg),
    ensures
        names_unique(insert_entry(reg, name, u)),
{
    lemma_entry_index(reg, name);
    let r = insert_entry(reg, name, u);
    assert forall|i: int, j: int| 0 <= i < j < r.len() implies r[i].0 != r[j].0 by {
        if entry_index(reg, name) < 0 && j == reg.len() {
            assert(r[i] == reg[i]);
        }
    }
}

/// Every request keeps the names of the registry pairwise distinct.
pub proof fn lemma_dispatch_keeps_names_unique(reg: Entries, line: Seq<char>)
    requires
        names_unique(reg),
    ensures
        names_unique(dispatch(reg, line).0),
{
    let ws = words(line);
    if ws.len() >= 2 {
        let name = ws[0];
        let data = join_spaced(ws.subrange(2, ws.len() as int));
        lemma_entry_index(reg, name);
        let i = entry_index(reg, name);
        if ws[1] == "receive"@ && i >= 0 {
            let r = dispatch(reg, line).0;
            assert forall|a: int, b: int| 0 <= a < b < r.len() implies r[a].0 != r[b].0 by {
                assert(r[a].0 == reg[a].0);
                assert(r[b].0 == reg[b].0);
            }
        } else if ws[1] == "create"@ {
            let initial: i32 = match i32_value(data) {
                Some(v) => v,
                None => 0,
            };
            lemma_insert_keeps_names_unique(reg, data, UnitView::Counter(0));
            lemma_insert_keeps_names_unique(
                reg,
                "maxcell_"@ + int_text(initial as int),
                UnitView::MaxCell(initial),
            );
        }
    }
}

/// `reg` with `name` bound to `u`: an existing entry of that name is replaced
/// in place, otherwise the entry goes at the end.
pub open spec fn insert_entry(reg: Entries, name: Seq<char>, u: UnitView) -> Entries {
    let i = entry_index(reg, name);
    if i >= 0 {
        reg.update(i, (name, u))
    } else {
        reg.push((name, u))
    }
}

/// The names of `reg` joined with `", "`.
pub open spec fn joined_names(reg: Entries) -> Seq<char>
    decreases reg.len(),
{
    if reg.len() == 0 {
        seq![]
    } else if reg.len() == 1 {
        reg[0].0
    } else {
        joined_names(reg.drop_last()) + ", "@ + reg.last().0
    }
}

/// The reply to a line of fewer than two words.
pub open spec fn format_error() -> Seq<char> {
    "ERROR: Invalid command format. Use: GADGET_NAME COMMAND [DATA]"@
}

/// The reply when no unit is registered under `name`.
pub open spec fn not_found(name: Seq<char>) -> Seq<char> {
    "ERROR: Gadget '"@ + name + "' not found"@
}

/// The reply when a maximum-tracker is sent data that is not an `i32`.
pub open spec fn invalid_integer() -> Seq<char> {
    "ERROR: Invalid integer"@
}

/// The unit and the reply after the unit `u` receives `data`.
pub open spec fn receive_unit(u: UnitView, data: Seq<char>) -> (UnitView, Seq<char>) {
    match u {
        UnitView::Counter(c) => (
            UnitView::Counter(counter_next(c, data)),
            int_text(counter_next(c, data) as int),
        ),
        UnitView::MaxCell(m) => match i32_value(data) {
            Some(v) => (UnitView::MaxCell(max_next(m, v)), int_text(max_next(m, v) as int)),
            None => (u, invalid_integer()),
        },
    }
}

/// The registry and reply after a `create` request for `kind` with `data`.
pub open spec fn create_unit(reg: Entries, kind: Seq<char>, data: Seq<char>) -> (Entries, Seq<char>) {
    if kind == "counter"@ {
        (
            insert_entry(reg, data, UnitView::Counter(0)),
            "Created counter '"@ + data + "'"@,
        )
    } else if kind == "maxcell"@ {
        let initial: i32 = match i32_value(data) {
            Some(v) => v,
            None => 0,
        };
        (
            insert_entry(reg, "maxcell_"@ + int_text(initial as int), UnitView::MaxCell(initial)),
            "Created maxcell with initial value "@ + int_text(initial as int),
        )
    } else {
        (reg, "ERROR: Unknown gadget type '"@ + kind + "'"@)
    }
}

/// The registry and reply after the request line `line`: its first word names
/// a unit (or a kind, for `create`), its second is the verb, and the rest,
/// joined by single spaces, is the data.
pub open spec fn dispatch(reg: Entries, line: Seq<char>) -> (Entries, Seq<char>) {
    let ws = words(line);
    if ws.len() < 2 {
        (reg, format_error())
    } else {
        let name = ws[0];
        let verb = ws[1];
        let data = join_spaced(ws.subrange(2, ws.len() as int));
        let i = entry_index(reg, name);
        if verb == "receive"@ {
            if i < 0 {
                (reg, not_found(name))
            } else {
                let (u, reply) = receive_unit(reg[i].1, data);
                (reg.update(i, (name, u)), reply)
            }
        } else if verb == "current"@ {
            if i < 0 {
                (reg, not_found(name))
            } else {
                (reg, int_text(unit_value(reg[i].1) as int))
            }
        } else if verb == "create"@ {
            create_unit(reg, name, data)
        } else if verb == "list"@ {
            (reg, "Gadgets: "@ + joined_names(reg))
        } else {
            (reg, "ERROR: Unknown action '"@ + verb + "'"@)
        }
    }
}


struct CounterHandler {
    counter: Counter,
}

impl CounterHandler {
    fn receive(&mut self, data: &str) -> (r: String)
        ensures
            final(self).counter.state() == counter_next(old(self).counter.state(), data@),
            r@ == int_text(final(self).counter.state() as int),
    {
        self.counter.receive(String::from_str(data));
        format_i32(self.counter.current())
    }

    fn current(&self) -> (r: String)
        ensures
            r@ == int_text(self.counter.state() as int),
    {
        format_i32(self.counter.current())
    }
}

struct MaxCellHandler {
    maxcell: MaxCell,
}

impl MaxCellHandler {
    fn receive(&mut self, data: &str) -> (r: String)
        ensures
            (UnitView::MaxCell(final(self).maxcell.state()), r@) == receive_unit(
                UnitView::MaxCell(old(self).maxcell.state()),
                data@,
            ),
    {
        proof {
            reveal_strlit("ERROR: Invalid integer");
        }
        match parse_i32(data) {
            Some(value) => {
                self.maxcell.receive(value);
                format_i32(self.maxcell.current())
            },
            None => String::from_str("ERROR: Invalid integer"),
        }
    }

    fn current(&self) -> (r: String)
        ensures
            r@ == int_text(self.maxcell.state() as int),
    {
        format_i32(self.maxcell.current())
    }
}

/// A registered unit of either kind, reached through text.
enum Handler {
    Counter(CounterHandler),
    MaxCell(MaxCellHandler),
}

impl Handler {
    closed spec fn unit(&self) -> UnitView {
        match self {
            Handler::Counter(h) => UnitView::Counter(h.counter.state()),
            Handler::MaxCell(h) => UnitView::MaxCell(h.maxcell.state()),
        }
    }

    fn receive(&mut self, data: &str) -> (r: String)
        ensures
            (final(self).unit(), r@) == receive_unit(old(self).unit(), data@),
    {
        match self {
            Handler::Counter(h) => h.receive(data),
            Handler::MaxCell(h) => h.receive(data),
        }
    }

    fn current(&self) -> (r: String)
        ensures
            r@ == int_text(unit_value(self.unit()) as int),
    {
        match self {
            Handler::Counter(h) => h.current(),
            Handler::MaxCell(h) => h.current(),
        }
    }
}

/// The registry of named units, and the dispatch of request lines against it.
///
/// Every request takes the registry by `&mut`, so requests are applied one at
/// a time, each in full.
pub struct GadgetServer {
    gadgets: Vec<(String, Handler)>,
}

impl GadgetServer {
    /// The registered names with what each unit holds, in insertion order.
    pub closed spec fn entries(&self) -> Entries {
        self.gadgets@.map_values(|p: (String, Handler)| (p.0@, p.1.unit()))
    }

    /// A registry holding a counter named `counter` and a maximum-tracker
    /// named `maxcell`, both at zero.
    pub fn new() -> (r: Self)
        ensures
            names_unique(r.entries()),
            r.entries() == seq![
                ("counter"@, UnitView::Counter(0)),
                ("maxcell"@, UnitView::MaxCell(0)),
            ],
    {
        let mut gadgets: Vec<(String, Handler)> = Vec::new();
        gadgets.push(
            (String::from_str("counter"), Handler::Counter(CounterHandler { counter: Counter::new() })),
        );
        gadgets.push(
            (
                String::from_str("maxcell"),
                Handler::MaxCell(MaxCellHandler { maxcell: MaxCell::new(0) }),
            ),
        );
        let r = GadgetServer { gadgets };
        assert(r.entries() =~= seq![
            ("counter"@, UnitView::Counter(0)),
            ("maxcell"@, UnitView::MaxCell(0)),
        ]);
        proof {
            reveal_strlit("counter");
            reveal_strlit("maxcell");
            assert("counter"@[0] != "maxcell"@[0]);
        }
        r
    }

    fn position(&self, name: &str) -> (r: Option<usize>)
        ensures
            match r {
                Some(i) => i < self.entries().len() && i as int == entry_index(self.entries(), name@),
                None => entry_index(self.entries(), name@) == -1,
            },
    {
        let mut k: usize = self.gadgets.len();
        assert(self.entries().take(k as int) =~= self.entries());
        while k > 0
            invariant
                k <= self.gadgets@.len(),
                entry_index(self.entries(), name@) == entry_index(self.entries().take(k as int), name@),
            decreases k,
        {
            let ghost t = self.entries().take(k as int);
            assert(t.drop_last() =~= self.entries().take(k - 1));
            assert(t.last().0 == self.gadgets@[k - 1].0@);
            if same_text(self.gadgets[k - 1].0.as_str(), name) {
                return Some(k - 1);
            }
            k = k - 1;
        }
        None
    }

    /// Binds `name` to `h`, replacing an entry of that name in place.
    fn insert(&mut self, name: String, h: Handler)
        ensures
            final(self).entries() == insert_entry(old(self).entries(), name@, h.unit()),
    {
        let ghost before = self.entries();
        match self.position(name.as_str()) {
            Some(i) => {
                self.gadgets.remove(i);
                self.gadgets.insert(i, (name, h));
                assert(self.entries() =~= insert_entry(before, name@, h.unit()));
            },
            None => {
                self.gadgets.push((name, h));
                assert(self.entries() =~= insert_entry(before, name@, h.unit()));
            },
        }
    }

    /// The registered names joined with `", "`.
    fn names(&self) -> (r: String)
        ensures
            r@ == joined_names(self.entries()),
    {
        let mut out = String::new();
        let mut i: usize = 0;
        assert(self.entries().take(0) =~= Seq::<(Seq<char>, UnitView)>::empty());
        while i < self.gadgets.len()
            invariant
                i <= self.gadgets@.len(),
                out@ == joined_names(self.entries().take(i as int)),
            decreases self.gadgets@.len() - i,
        {
            let ghost next = self.entries().take(i + 1);
            assert(next.drop_last() =~= self.entries().take(i as int));
            if i > 0 {
                proof {
                    reveal_strlit(", ");
                }
                out.append(", ");
            }
            out.append(self.gadgets[i].0.as_str());
            assert(out@ =~= joined_names(next));
            i = i + 1;
        }
        assert(self.entries().take(i as int) =~= self.entries());
        out
    }

    /// Hands `data` to the unit at `i` and replies with its value.
    fn receive_at(&mut self, i: usize, data: &str) -> (r: String)
        requires
            i < old(self).entries().len(),
        ensures
            final(self).entries() == old(self).entries().update(
                i as int,
                (old(self).entries()[i as int].0, receive_unit(old(self).entries()[i as int].1, data@).0),
            ),
            r@ == receive_unit(old(self).entries()[i as int].1, data@).1,
    {
        let ghost before = self.entries();
        let (name, mut h) = self.gadgets.remove(i);
        let r = h.receive(data);
        let ghost u = h.unit();
        self.gadgets.insert(i, (name, h));
        assert(self.entries() =~= before.update(i as int, (before[i as int].0, u)));
        r
    }

    /// Adds a new unit of the kind `kind`, configured from `data`.
    fn create(&mut self, kind: &str, data: String) -> (r: String)
        ensures
            (final(self).entries(), r@) == create_unit(old(self).entries(), kind@, data@),
    {
        proof {
            reveal_strlit("counter");
            reveal_strlit("maxcell");
            reveal_strlit("maxcell_");
            reveal_strlit("Created counter '");
            reveal_strlit("'");
            reveal_strlit("Created maxcell with initial value ");
            reveal_strlit("ERROR: Unknown gadget type '");
        }
        if same_text(kind, "counter") {
            let reply = surround("Created counter '", data.as_str(), "'");
            self.insert(data, Handler::Counter(CounterHandler { counter: Counter::new() }));
            reply
        } else if same_text(kind, "maxcell") {
            let initial: i32 = match parse_i32(data.as_str()) {
                Some(v) => v,
                None => 0,
            };
            let digits = format_i32(initial);
            let name = String::from_str("maxcell_").concat(digits.as_str());
            self.insert(name, Handler::MaxCell(MaxCellHandler { maxcell: MaxCell::new(initial) }));
            String::from_str("Created maxcell with initial value ").concat(digits.as_str())
        } else {
            surround("ERROR: Unknown gadget type '", kind, "'")
        }
    }

    /// Runs one request line against the registry and returns the reply line.
    pub fn process_command(&mut self, command: &str) -> (r: String)
        ensures
            (final(self).entries(), r@) == dispatch(old(self).entries(), command@),
    {
        proof {
            reveal_strlit("ERROR: Invalid command format. Use: GADGET_NAME COMMAND [DATA]");
            reveal_strlit("receive");
            reveal_strlit("current");
            reveal_strlit("create");
            reveal_strlit("list");
            reveal_strlit("ERROR: Gadget '");
            reveal_strlit("' not found");
            reveal_strlit("Gadgets: ");
            reveal_strlit("ERROR: Unknown action '");
            reveal_strlit("'");
        }
        let parts = split_words(command);
        if parts.len() < 2 {
            return String::from_str("ERROR: Invalid command format. Use: GADGET_NAME COMMAND [DATA]");
        }
        let name = parts[0].as_str();
        let action = parts[1].as_str();
        assert(name@ == words(command@)[0]);
        assert(action@ == words(command@)[1]);
        proof {
            lemma_entry_index(self.entries(), name@);
        }
        let data = join_from(&parts, 2);
        assert(texts(parts@).subrange(2, parts@.len() as int) =~= words(command@).subrange(
            2,
            words(command@).len() as int,
        ));
        if same_text(action, "receive") {
            match self.position(name) {
                Some(i) => self.receive_at(i, data.as_str()),
                None => surround("ERROR: Gadget '", name, "' not found"),
            }
        } else if same_text(action, "current") {
            match self.position(name) {
                Some(i) => self.gadgets[i].1.current(),
                None => surround("ERROR: Gadget '", name, "' not found"),
            }
        } else if same_text(action, "create") {
            self.create(name, data)
        } else if same_text(action, "list") {
            String::from_str("Gadgets: ").concat(self.names().as_str())
        } else {
            surround("ERROR: Unknown action '", action, "'")
        }
    }
}

/// `prefix`, then `middle`, then `suffix`.
fn surround(prefix: &str, middle: &str, suffix: &str) -> (r: String)
    ensures
        r@ == prefix@ + middle@ + suffix@,
{
    String::from_str(prefix).concat(middle).concat(suffix)
}

} // verus!

use vstd::prelude::*;

use crate::records::{convert_to_log_message, global_record, is_global_record, is_node_message, GlobalRecord, LogMessage};
use crate::text_map::{FieldMap, TextMap};

verus! {

/// The span field that names the node a span belongs to.
pub const SEED_FIELD: &'static str = "seed";

/// A lower-case hexadecimal digit.
pub open spec fn hex_digit(n: nat) -> char {
    if n < 10 {
        (48 + n) as char
    } else {
        (87 + n) as char
    }
}

/// Bytes written as lower-case hexadecimal, two digits per byte, high half first.
pub open spec fn hex_lower(bytes: Seq<u8>) -> Seq<char>
    decreases bytes.len(),
{
    if bytes.len() == 0 {
        Seq::empty()
    } else {
        hex_lower(bytes.drop_last()) + seq![
            hex_digit((bytes.last() / 16) as nat),
            hex_digit((bytes.last() % 16) as nat),
        ]
    }
}

/// The text of one lower-case hexadecimal digit.
fn hex_digit_text(d: u8) -> (r: &'static str)
    requires
        d < 16,
    ensures
        r@ == seq![hex_digit(d as nat)],
{
    proof {
        reveal_strlit("0");
        reveal_strlit("1");
        reveal_strlit("2");
        reveal_strlit("3");
        reveal_strlit("4");
        reveal_strlit("5");
        reveal_strlit("6");
        reveal_strlit("7");
        reveal_strlit("8");
        reveal_strlit("9");
        reveal_strlit("a");
        reveal_strlit("b");
        reveal_strlit("c");
        reveal_strlit("d");
        reveal_strlit("e");
        reveal_strlit("f");
    }
    if d == 0 {
        "0"
    } else if d == 1 {
        "1"
    } else if d == 2 {
        "2"
    } else if d == 3 {
        "3"
    } else if d == 4 {
        "4"
    } else if d == 5 {
        "5"
    } else if d == 6 {
        "6"
    } else if d == 7 {
        "7"
    } else if d == 8 {
        "8"
    } else if d == 9 {
        "9"
    } else if d == 10 {
        "a"
    } else if d == 11 {
        "b"
    } else if d == 12 {
        "c"
    } else if d == 13 {
        "d"
    } else if d == 14 {
        "e"
    } else if d == 15 {
        "f"
    } else {
        "f"
    }
}

/// Bytes written as lower-case hexadecimal, as `hex::encode` writes them: two digits
/// per byte, the high half first, in the order of the bytes.
fn hex_encode(bytes: &[u8]) -> (r: String)
    ensures
        r@ == hex_lower(bytes@),
{
    let mut out = String::new();
    let mut i: usize = 0;
    proof {
        assert(bytes@.take(0) =~= Seq::<u8>::empty());
    }
    while i < bytes.len()
        invariant
            i <= bytes@.len(),
            out@ == hex_lower(bytes@.take(i as int)),
        decreases bytes@.len() - i,
    {
        let b = bytes[i];
        out.append(hex_digit_text(b / 16));
        out.append(hex_digit_text(b % 16));
        proof {
            assert(bytes@.take(i + 1).drop_last() =~= bytes@.take(i as int));
            assert(bytes@.take(i + 1).last() == b);
        }
        i = i + 1;
    }
    proof {
        assert(bytes@.take(i as int) =~= bytes@);
    }
    out
}

/// The key under which the logger of the node with this seed is registered.
pub fn node_logger_key(seed: &[u8]) -> (r: String)
    ensures
        r@ == hex_lower(seed@),
{
    hex_encode(seed)
}

/// The per-node loggers, each under the hex encoding of its node's seed.
pub struct LoggerRegistry<L> {
    loggers: TextMap<L>,
}

impl<L> View for LoggerRegistry<L> {
    type V = Map<Seq<char>, L>;

    closed spec fn view(&self) -> Map<Seq<char>, L> {
        self.loggers@
    }
}

/// Which logger an event goes to.
pub enum EventRoute<'a, L> {
    /// The logger of the node that the event's span names, with the message for it.
    Node(&'a L, LogMessage),
    /// The global logger, with the record for it.
    Global(GlobalRecord),
}

/// The seed that an event's span scope names, the spans taken from the root:
/// the first span that stores fields decides, by its seed field or by having none.
pub open spec fn scope_seed(scope: Seq<Option<FieldMap>>) -> Option<Seq<char>>
    decreases scope.len(),
{
    if scope.len() == 0 {
        None
    } else {
        match scope[0] {
            Some(fields) => if fields@.dom().contains(SEED_FIELD@) {
                Some(fields@[SEED_FIELD@]@)
            } else {
                None
            },
            None => scope_seed(scope.drop_first()),
        }
    }
}

/// Does `route` send an event with these fields, in this span scope, where it belongs?
/// To the node's logger when the scope names a seed under which a logger is registered,
/// else to the global logger.
pub open spec fn routes_event<L>(
    route: EventRoute<L>,
    loggers: Map<Seq<char>, L>,
    scope: Seq<Option<FieldMap>>,
    fields: Map<Seq<char>, String>,
) -> bool {
    let seed = scope_seed(scope);
    if seed is Some && loggers.dom().contains(seed->0) {
        route matches EventRoute::Node(l, msg) && *l == loggers[seed->0] && is_node_message(msg, fields)
    } else {
        route matches EventRoute::Global(rec) && is_global_record(rec, fields)
    }
}

/// The seed named by the span scope of an event, the spans taken from the root:
/// `None` when no span stores fields, or when the first one that does has no seed field.
pub fn find_span_seed(scope: &Vec<Option<FieldMap>>) -> (r: Option<String>)
    ensures
        match r {
            Some(s) => scope_seed(scope@) == Some(s@),
            None => scope_seed(scope@) is None,
        },
{
    let mut i: usize = 0;
    proof {
        assert(scope@.skip(0) =~= scope@);
    }
    while i < scope.len()
        invariant
            i <= scope@.len(),
            scope_seed(scope@) == scope_seed(scope@.skip(i as int)),
        decreases scope@.len() - i,
    {
        proof {
            assert(scope@.skip(i as int).drop_first() =~= scope@.skip(i + 1));
            assert(scope@.skip(i as int)[0] == scope@[i as int]);
        }
        match &scope[i] {
            Some(fields) => {
                return match fields.get(SEED_FIELD) {
                    Some(seed) => Some(seed.clone()),
                    None => None,
                };
            },
            None => {},
        }
        i = i + 1;
    }
    None
}

impl<L> LoggerRegistry<L> {
    /// A registry with no logger in it.
    pub fn new() -> (r: Self)
        ensures
            r@ == Map::<Seq<char>, L>::empty(),
    {
        LoggerRegistry { loggers: TextMap::new() }
    }

    /// Registers `logger` under `key`, in place of any logger registered there before.
    pub fn add_local_logger(&mut self, key: String, logger: L)
        ensures
            final(self)@ == old(self)@.insert(key@, logger),
    {
        self.loggers.insert(key, logger);
    }

    /// Registers the logger of the node with this seed, and gives back the key it stands under.
    pub fn register_node_logger(&mut self, seed: &[u8], logger: L) -> (key: String)
        ensures
            key@ == hex_lower(seed@),
            final(self)@ == old(self)@.insert(hex_lower(seed@), logger),
    {
        let key = node_logger_key(seed);
        self.loggers.insert(key.clone(), logger);
        key
    }

    /// The logger registered under `key`, if there is one.
    pub fn logger_for(&self, key: &str) -> (r: Option<&L>)
        ensures
            match r {
                Some(l) => self@.dom().contains(key@) && *l == self@[key@],
                None => !self@.dom().contains(key@),
            },
    {
        self.loggers.get(key)
    }

    /// Decides where an event goes: to the logger of the node that its span scope
    /// names, when one is registered, else to the global logger.
    pub fn route_event<'a>(&'a self, scope: &Vec<Option<FieldMap>>, fields: &FieldMap) -> (r: EventRoute<'a, L>)
        ensures
            routes_event(r, self@, scope@, fields@),
    {
        match find_span_seed(scope) {
            Some(seed) => match self.logger_for(seed.as_str()) {
                Some(logger) => EventRoute::Node(logger, convert_to_log_message(fields)),
                None => EventRoute::Global(global_record(fields)),
            },
            None => EventRoute::Global(global_record(fields)),
        }
    }
}

proof fn lemma_hex_len(bytes: Seq<u8>)
    ensures
        hex_lower(bytes).len() == 2 * bytes.len(),
    decreases bytes.len(),
{
    if bytes.len() > 0 {
        lemma_hex_len(bytes.drop_last());
    }
}

proof fn lemma_hex_digit_injective(n: nat, m: nat)
    requires
        n < 16,
        m < 16,
        hex_digit(n) == hex_digit(m),
    ensures
        n == m,
{
    assert(hex_digit(n) as int == if n < 10 { 48 + n } else { 87 + n });
    assert(hex_digit(m) as int == if m < 10 { 48 + m } else { 87 + m });
}

/// Two different seeds never share a key: the logger of one node is never
/// registered, nor looked up, under the key of another.
pub proof fn law_distinct_seeds_distinct_keys(a: Seq<u8>, b: Seq<u8>)
    requires
        a != b,
    ensures
        hex_lower(a) != hex_lower(b),
    decreases a.len(),
{
    lemma_hex_len(a);
    lemma_hex_len(b);
    if hex_lower(a) == hex_lower(b) && a.len() == 0 {
        assert(a =~= b);
    }
    if hex_lower(a) == hex_lower(b) && a.len() > 0 {
        let ha = hex_lower(a);
        let pa = hex_lower(a.drop_last());
        let pb = hex_lower(b.drop_last());
        lemma_hex_len(a.drop_last());
        lemma_hex_len(b.drop_last());
        let n = ha.len() as int;
        assert(ha[n - 2] == hex_digit((a.last() / 16) as nat));
        assert(ha[n - 1] == hex_digit((a.last() % 16) as nat));
        assert(hex_lower(b)[n - 2] == hex_digit((b.last() / 16) as nat));
        assert(hex_lower(b)[n - 1] == hex_digit((b.last() % 16) as nat));
        lemma_hex_digit_injective((a.last() / 16) as nat, (b.last() / 16) as nat);
        lemma_hex_digit_injective((a.last() % 16) as nat, (b.last() % 16) as nat);
        assert(a.last() == b.last()) by {
            assert(a.last() == (a.last() / 16) * 16 + a.last() % 16);
            assert(b.last() == (b.last() / 16) * 16 + b.last() % 16);
        }
        assert(pa =~= ha.subrange(0, n - 2));
        assert(pb =~= hex_lower(b).subrange(0, n - 2));
        if a.drop_last() != b.drop_last() {
            law_distinct_seeds_distinct_keys(a.drop_last(), b.drop_last());
        }
        assert(a =~= a.drop_last().push(a.last()));
        assert(b =~= b.drop_last().push(b.last()));
    }
}

/// An event whose span names a node reaches the logger registered for that node's
/// seed, with the message made from its fields, whatever else the registry holds.
pub proof fn law_node_events_reach_their_logger<L>(
    loggers: Map<Seq<char>, L>,
    seed: Seq<u8>,
    logger: L,
    scope: Seq<Option<FieldMap>>,
    fields: Map<Seq<char>, String>,
    route: EventRoute<L>,
)
    requires
        scope_seed(scope) == Some(hex_lower(seed)),
        routes_event(route, loggers.insert(hex_lower(seed), logger), scope, fields),
    ensures
        route matches EventRoute::Node(l, msg) && *l == logger && is_node_message(msg, fields),
{
}

/// An event whose span scope names no seed, or a seed under which no logger is
/// registered, goes to the global logger with the record made from its fields.
pub proof fn law_unclaimed_events_go_global<L>(
    loggers: Map<Seq<char>, L>,
    scope: Seq<Option<FieldMap>>,
    fields: Map<Seq<char>, String>,
    route: EventRoute<L>,
)
    requires
        scope_seed(scope) is None || !loggers.dom().contains(scope_seed(scope)->0),
        routes_event(route, loggers, scope, fields),
    ensures
        route matches EventRoute::Global(rec) && is_global_record(rec, fields),
{
}

/// Registering the logger of one node leaves the logger of every other node in place.
pub proof fn law_registration_keeps_other_nodes<L>(loggers: Map<Seq<char>, L>, seed: Seq<u8>, logger: L, other: Seq<u8>)
    requires
        seed != other,
    ensures
        loggers.insert(hex_lower(seed), logger).dom().contains(hex_lower(other))
            == loggers.dom().contains(hex_lower(other)),
        loggers.dom().contains(hex_lower(other)) ==> loggers.insert(hex_lower(seed), logger)[hex_lower(other)]
            == loggers[hex_lower(other)],
{
    law_distinct_seeds_distinct_keys(seed, other);
}

/// The hex key of a seed is twice as long as the seed, and characters `2 i` and `2 i + 1`
/// are the lower-case digits of the high and the low half of byte `i`.
pub proof fn law_hex_layout(bytes: Seq<u8>)
    ensures
        hex_lower(bytes).len() == 2 * bytes.len(),
        forall|i: int| 0 <= i < bytes.len() ==> {
            let hi = (bytes[i] / 16) as int;
            let lo = (bytes[i] % 16) as int;
            &&& (#[trigger] hex_lower(bytes)[2 * i]) as int == if hi < 10 { 48 + hi } else { 87 + hi }
            &&& hex_lower(bytes)[2 * i + 1] as int == if lo < 10 { 48 + lo } else { 87 + lo }
        },
    decreases bytes.len(),
{
    lemma_hex_len(bytes);
    if bytes.len() > 0 {
        let t = bytes.drop_last();
        law_hex_layout(t);
        lemma_hex_len(t);
        assert forall|i: int| 0 <= i < bytes.len() implies {
            let hi = (bytes[i] / 16) as int;
            let lo = (bytes[i] % 16) as int;
            &&& (#[trigger] hex_lower(bytes)[2 * i]) as int == if hi < 10 { 48 + hi } else { 87 + hi }
            &&& hex_lower(bytes)[2 * i + 1] as int == if lo < 10 { 48 + lo } else { 87 + lo }
        } by {
            let hi = (bytes[i] / 16) as nat;
            let lo = (bytes[i] % 16) as nat;
            assert(hex_digit(hi) as int == if hi < 10 { 48 + hi } else { 87 + hi });
            assert(hex_digit(lo) as int == if lo < 10 { 48 + lo } else { 87 + lo });
            if i < bytes.len() - 1 {
                assert(t[i] == bytes[i]);
                assert(hex_lower(bytes)[2 * i] == hex_lower(t)[2 * i]);
                assert(hex_lower(bytes)[2 * i + 1] == hex_lower(t)[2 * i + 1]);
            }
        }
    }
}

/// When no span of the scope stores fields, the scope names no seed.
pub proof fn law_scope_without_fields_names_no_seed(scope: Seq<Option<FieldMap>>)
    requires
        forall|j: int| 0 <= j < scope.len() ==> #[trigger] scope[j] is None,
    ensures
        scope_seed(scope) is None,
    decreases scope.len(),
{
    if scope.len() > 0 {
        law_scope_without_fields_names_no_seed(scope.drop_first());
    }
}

/// The seed a scope names is read from the first span, from the root, that stores fields:
/// exactly the whole text recorded under its seed field, and none when it has no seed field.
pub proof fn law_scope_seed_is_recorded_seed(scope: Seq<Option<FieldMap>>, i: int)
    requires
        0 <= i < scope.len(),
        forall|j: int| 0 <= j < i ==> #[trigger] scope[j] is None,
        scope[i] is Some,
    ensures
        scope[i]->0@.dom().contains(SEED_FIELD@) ==> scope_seed(scope) == Some(scope[i]->0@[SEED_FIELD@]@),
        !scope[i]->0@.dom().contains(SEED_FIELD@) ==> scope_seed(scope) is None,
    decreases i,
{
    if i > 0 {
        let rest = scope.drop_first();
        assert(rest[i - 1] == scope[i]);
        assert forall|j: int| 0 <= j < i - 1 implies #[trigger] rest[j] is None by {
            assert(rest[j] == scope[j + 1]);
        }
        law_scope_seed_is_recorded_seed(rest, i - 1);
    }
}

/// An event inside the span of a node, whose seed field holds the text `seed`, reaches the
/// logger registered under exactly that text, with the message made from its fields.
pub proof fn law_span_seed_selects_node_logger<L>(
    loggers: Map<Seq<char>, L>,
    scope: Seq<Option<FieldMap>>,
    i: int,
    fields: Map<Seq<char>, String>,
    route: EventRoute<L>,
)
    requires
        0 <= i < scope.len(),
        forall|j: int| 0 <= j < i ==> #[trigger] scope[j] is None,
        scope[i] is Some,
        scope[i]->0@.dom().contains(SEED_FIELD@),
        loggers.dom().contains(scope[i]->0@[SEED_FIELD@]@),
        routes_event(route, loggers, scope, fields),
    ensures
        route matches EventRoute::Node(l, msg) && *l == loggers[scope[i]->0@[SEED_FIELD@]@]
            && is_node_message(msg, fields),
{
    law_scope_seed_is_recorded_seed(scope, i);
}

} // verus!

use vstd::prelude::*;

verus! {

/// One handshake message as it was sent or received.
#[derive(Debug)]
pub struct HandshakeCacheItem {
    pub typ: u8,
    pub is_client: bool,
    pub epoch: u16,
    pub message_sequence: u16,
    pub data: Vec<u8>,
}

/// The plain values of a cached message.
pub struct CachedMessage {
    pub typ: u8,
    pub is_client: bool,
    pub epoch: u16,
    pub message_sequence: u16,
    pub data: Seq<u8>,
}

impl HandshakeCacheItem {
    pub open spec fn view(&self) -> CachedMessage {
        CachedMessage {
            typ: self.typ,
            is_client: self.is_client,
            epoch: self.epoch,
            message_sequence: self.message_sequence,
            data: self.data@,
        }
    }
}

/// Append-only log of the handshake messages of a connection, from which the
/// transcript of the handshake is read.
pub struct HandshakeCache {
    pub cache: Vec<HandshakeCacheItem>,
}

/// A request for the message of one type, origin and epoch.
#[derive(Clone, Copy, Debug)]
pub struct HandshakeCachePullRule {
    pub typ: u8,
    pub epoch: u16,
    pub is_client: bool,
    pub optional: bool,
}

pub open spec fn messages(items: Seq<HandshakeCacheItem>) -> Seq<CachedMessage> {
    items.map_values(|i: HandshakeCacheItem| i.view())
}

/// Whether a message of this sequence and origin is in the log.
pub open spec fn has_message(log: Seq<CachedMessage>, message_sequence: u16, is_client: bool) -> bool {
    exists|i: int|
        0 <= i < log.len() && (#[trigger] log[i]).message_sequence == message_sequence
            && log[i].is_client == is_client
}

/// Position of the first message in `log` that the rule asks for, if any.
pub open spec fn first_match(log: Seq<CachedMessage>, r: HandshakeCachePullRule) -> Option<int>
    decreases log.len(),
{
    if log.len() == 0 {
        None
    } else {
        match first_match(log.drop_last(), r) {
            Some(i) => Some(i),
            None => if log.last().typ == r.typ && log.last().epoch == r.epoch && log.last().is_client
                == r.is_client {
                Some(log.len() - 1)
            } else {
                None
            },
        }
    }
}

/// The concatenated bytes of the messages that the rules ask for, in rule
/// order; `None` when a rule that is not optional finds nothing.
pub open spec fn merged(log: Seq<CachedMessage>, rules: Seq<HandshakeCachePullRule>) -> Option<
    Seq<u8>,
>
    decreases rules.len(),
{
    if rules.len() == 0 {
        Some(Seq::empty())
    } else {
        match merged(log, rules.drop_last()) {
            None => None,
            Some(acc) => match first_match(log, rules.last()) {
                Some(i) => Some(acc + log[i].data),
                None => if rules.last().optional {
                    Some(acc)
                } else {
                    None
                },
            },
        }
    }
}

impl HandshakeCache {
    pub open spec fn view(&self) -> Seq<CachedMessage> {
        messages(self.cache@)
    }

    pub fn new() -> (r: Self)
        ensures
            r@ == Seq::<CachedMessage>::empty(),
    {
        let r = HandshakeCache { cache: Vec::new() };
        assert(r@ =~= Seq::<CachedMessage>::empty());
        r
    }

    /// Appends a message unless one of the same sequence and origin is there
    /// already; what is in the log is never changed.
    pub fn push(&mut self, data: Vec<u8>, epoch: u16, message_sequence: u16, typ: u8, is_client: bool)
        ensures
            has_message(old(self)@, message_sequence, is_client) ==> final(self)@ == old(self)@,
            !has_message(old(self)@, message_sequence, is_client) ==> final(self)@ == old(
                self,
            )@.push(
                CachedMessage { typ, is_client, epoch, message_sequence, data: data@ },
            ),
    {
        let mut i: usize = 0;
        while i < self.cache.len()
            invariant
                i <= self.cache@.len(),
                forall|j: int|
                    0 <= j < i ==> !((#[trigger] self@[j]).message_sequence == message_sequence
                        && self@[j].is_client == is_client),
            decreases self.cache@.len() - i,
        {
            if self.cache[i].message_sequence == message_sequence && self.cache[i].is_client
                == is_client {
                assert(self@[i as int] == self.cache@[i as int].view());
                return;
            }
            assert(self@[i as int] == self.cache@[i as int].view());
            i = i + 1;
        }
        let ghost before = self@;
        self.cache.push(HandshakeCacheItem { typ, is_client, epoch, message_sequence, data });
        assert(self@ =~= before.push(
            CachedMessage { typ, is_client, epoch, message_sequence, data: data@ },
        ));
    }

    /// The concatenated messages that `rules` ask for (see `merged`).
    pub fn pull_and_merge(&self, rules: &Vec<HandshakeCachePullRule>) -> (r: Option<Vec<u8>>)
        ensures
            match merged(self@, rules@) {
                Some(m) => r is Some && r->Some_0@ == m,
                None => r is None,
            },
    {
        let mut out: Vec<u8> = Vec::new();
        let mut k: usize = 0;
        assert(rules@.take(0) =~= Seq::<HandshakeCachePullRule>::empty());
        while k < rules.len()
            invariant
                k <= rules@.len(),
                merged(self@, rules@.take(k as int)) == Some(out@),
            decreases rules@.len() - k,
        {
            let rule = rules[k];
            assert(rules@.take(k + 1).drop_last() =~= rules@.take(k as int));
            assert(rules@.take(k + 1).last() == rule);
            let found = self.find(rule);
            match found {
                Some(i) => {
                    let ghost prev = out@;
                    assert(self@[i as int] == self.cache@[i as int].view());
                    out.extend_from_slice(self.cache[i].data.as_slice());
                    assert(out@ =~= prev + self@[i as int].data);
                    assert(out@ =~= merged(self@, rules@.take(k + 1))->Some_0);
                },
                None => {
                    if !rule.optional {
                        proof {
                            lemma_merged_none_stays(self@, rules@, k as int + 1);
                        }
                        assert(rules@.take(rules@.len() as int) =~= rules@);
                        return None;
                    }
                },
            }
            k = k + 1;
        }
        assert(rules@.take(k as int) =~= rules@);
        Some(out)
    }

    /// Index of the first message that `rule` asks for.
    pub fn find(&self, rule: HandshakeCachePullRule) -> (r: Option<usize>)
        ensures
            r is None <==> first_match(self@, rule) is None,
            r matches Some(i) ==> first_match(self@, rule) == Some(i as int) && i < self.cache@.len(),
    {
        let mut i: usize = 0;
        while i < self.cache.len()
            invariant
                i <= self.cache@.len(),
                first_match(self@.take(i as int), rule) is None,
            decreases self.cache@.len() - i,
        {
            assert(self@.take(i + 1).drop_last() =~= self@.take(i as int));
            assert(self@.take(i + 1).last() == self.cache@[i as int].view());
            let c = &self.cache[i];
            if c.typ == rule.typ && c.epoch == rule.epoch && c.is_client == rule.is_client {
                proof {
                    lemma_first_match_extends(self@, rule, i as int + 1);
                }
                return Some(i);
            }
            i = i + 1;
        }
        assert(self@.take(i as int) =~= self@);
        None
    }
}

proof fn lemma_first_match_extends(log: Seq<CachedMessage>, r: HandshakeCachePullRule, n: int)
    requires
        0 < n <= log.len(),
        first_match(log.take(n), r) is Some,
    ensures
        first_match(log, r) == first_match(log.take(n), r),
    decreases log.len() - n,
{
    if n < log.len() {
        assert(log.take(n + 1).drop_last() =~= log.take(n));
        lemma_first_match_extends(log, r, n + 1);
    } else {
        assert(log.take(n) =~= log);
    }
}

proof fn lemma_merged_none_stays(log: Seq<CachedMessage>, rules: Seq<HandshakeCachePullRule>, n: int)
    requires
        0 <= n <= rules.len(),
        merged(log, rules.take(n)) is None,
    ensures
        merged(log, rules) is None,
    decreases rules.len() - n,
{
    if n < rules.len() {
        assert(rules.take(n + 1).drop_last() =~= rules.take(n));
        lemma_merged_none_stays(log, rules, n + 1);
    } else {
        assert(rules.take(n) =~= rules);
    }
}

/// Pushing never changes or removes a message that is already in the log:
/// each entry keeps its position and its bytes.
pub proof fn lemma_cache_append_only(before: Seq<CachedMessage>, after: Seq<CachedMessage>, i: int)
    requires
        after == before || exists|m: CachedMessage| after == before.push(m),
        0 <= i < before.len(),
    ensures
        after[i] == before[i],
{
    if after != before {
        let m = choose|m: CachedMessage| after == before.push(m);
        assert(after[i] == before.push(m)[i]);
    }
}

} // verus!

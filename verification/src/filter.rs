//! The filter engine: reduces the bindings of a scan to the display list.
//!
//! A binding is retained if its port lies in the configured range and its
//! process name holds none of the excluded texts. The display list holds the
//! retained bindings in ascending order of port; bindings on the same port
//! keep the order in which the scan found them.

use crate::binding::{views, Binding, PortBinding};
use crate::config::{Config, FilterConfig};
use crate::sequences::{lemma_filter_all, lemma_filter_members, lemma_filter_none, lemma_filter_push};
use crate::text::{chars_of, contains, is_substring};
use vstd::prelude::*;

verus! {

/// The port of the binding lies in the configured range.
pub open spec fn in_range(binding: Binding, config: FilterConfig) -> bool {
    config.min_port <= binding.port <= config.max_port
}

/// One of the excluded texts is a piece of `name`.
pub open spec fn excludes(config: FilterConfig, name: Seq<char>) -> bool {
    exists|i: int| 0 <= i < config.excluded.len() && is_substring(#[trigger] config.excluded[i], name)
}

/// The binding is shown: its port is in range and its name is not excluded.
pub open spec fn retained(binding: Binding, config: FilterConfig) -> bool {
    in_range(binding, config) && !excludes(config, binding.name)
}

/// The test that a binding is shown under `config`.
pub open spec fn keeps(config: FilterConfig) -> spec_fn(Binding) -> bool {
    |binding: Binding| retained(binding, config)
}

/// The test that a binding listens on `port`.
pub open spec fn listens_on(port: int) -> spec_fn(Binding) -> bool {
    |binding: Binding| binding.port == port
}

/// The test that a binding listens on a port below `port`.
pub open spec fn listens_below(port: int) -> spec_fn(Binding) -> bool {
    |binding: Binding| binding.port < port
}

/// The bindings of `s` on `port`, in the order they have in `s`.
pub open spec fn on_port(s: Seq<Binding>, port: int) -> Seq<Binding> {
    s.filter(listens_on(port))
}

/// The bindings of `s` on the ports below `n`, port by port: those on port 0
/// in the order they have in `s`, then those on port 1, and so on.
pub open spec fn through_port(s: Seq<Binding>, n: nat) -> Seq<Binding>
    decreases n,
{
    if n == 0 {
        Seq::empty()
    } else {
        through_port(s, (n - 1) as nat) + on_port(s, n - 1)
    }
}

/// The bindings of `s` in ascending order of port, those on the same port in
/// the order they have in `s`.
pub open spec fn by_port(s: Seq<Binding>) -> Seq<Binding> {
    through_port(s, 65536)
}

/// The ports of `s` never descend.
pub open spec fn ordered(s: Seq<Binding>) -> bool {
    forall|i: int, j: int| 0 <= i < j < s.len() ==> s[i].port <= s[j].port
}

/// The display list of a scan: the retained bindings, by port.
pub open spec fn display_list(scan: Seq<Binding>, config: FilterConfig) -> Seq<Binding> {
    by_port(scan.filter(keeps(config)))
}

/// The bindings on the ports below `n` are in order, and none is on `n` or
/// above.
proof fn lemma_through_port_ordered(s: Seq<Binding>, n: nat)
    ensures
        ordered(through_port(s, n)),
        forall|i: int| 0 <= i < through_port(s, n).len() ==> (#[trigger] through_port(s, n)[i]).port < n,
    decreases n,
{
    if n > 0 {
        let head = through_port(s, (n - 1) as nat);
        let last = on_port(s, n - 1);
        lemma_through_port_ordered(s, (n - 1) as nat);
        assert forall|i: int| 0 <= i < last.len() implies (#[trigger] last[i]).port == n - 1 by {
            s.lemma_filter_pred(listens_on(n - 1), i);
        }
        let all = head + last;
        assert forall|i: int| 0 <= i < all.len() implies (#[trigger] all[i]).port < n by {
            if i < head.len() {
                assert(all[i] == head[i]);
            } else {
                assert(all[i] == last[i - head.len()]);
            }
        }
        assert forall|i: int, j: int| 0 <= i < j < all.len() implies all[i].port <= all[j].port by {
            if j < head.len() {
                assert(all[i] == head[i] && all[j] == head[j]);
            } else if i < head.len() {
                assert(all[i] == head[i] && all[j] == last[j - head.len()]);
            } else {
                assert(all[i] == last[i - head.len()] && all[j] == last[j - head.len()]);
            }
        }
    }
}

/// Among the bindings on the ports below `n`, those on one port are the ones
/// that `s` has on it, in the same order.
proof fn lemma_through_port_keeps(s: Seq<Binding>, n: nat, port: int)
    ensures
        on_port(through_port(s, n), port) == if port < n {
            on_port(s, port)
        } else {
            Seq::empty()
        },
    decreases n,
{
    if n == 0 {
        lemma_filter_none(through_port(s, n), listens_on(port));
        if port < 0 {
            lemma_filter_none(s, listens_on(port));
        }
    } else {
        let head = through_port(s, (n - 1) as nat);
        let last = on_port(s, n - 1);
        lemma_through_port_keeps(s, (n - 1) as nat, port);
        assert forall|i: int| 0 <= i < last.len() implies (#[trigger] last[i]).port == n - 1 by {
            s.lemma_filter_pred(listens_on(n - 1), i);
        }
        if port == n - 1 {
            lemma_filter_all(last, listens_on(port));
        } else {
            lemma_filter_none(last, listens_on(port));
        }
        assert((head + last).filter(listens_on(port)) == head.filter(listens_on(port))
            + last.filter(listens_on(port)));
    }
}

/// In an ordered sequence, the bindings below port `n + 1` are those below
/// port `n` followed by those on port `n`.
proof fn lemma_ordered_split(s: Seq<Binding>, n: int)
    requires
        ordered(s),
    ensures
        s.filter(listens_below(n)) + on_port(s, n) == s.filter(listens_below(n + 1)),
    decreases s.len(),
{
    if s.len() == 0 {
        lemma_filter_none(s, listens_below(n));
        lemma_filter_none(s, listens_on(n));
        lemma_filter_none(s, listens_below(n + 1));
    } else {
        let front = s.drop_last();
        let x = s.last();
        assert(front.push(x) =~= s);
        assert(ordered(front)) by {
            assert forall|i: int, j: int| 0 <= i < j < front.len() implies front[i].port
                <= front[j].port by {
                assert(front[i] == s[i] && front[j] == s[j]);
            }
        }
        lemma_ordered_split(front, n);
        lemma_filter_push(front, x, listens_below(n));
        lemma_filter_push(front, x, listens_on(n));
        lemma_filter_push(front, x, listens_below(n + 1));
        if x.port < n {
            assert forall|i: int| 0 <= i < front.len() implies !listens_on(n)(#[trigger] front[i]) by {
                assert(front[i] == s[i]);
                assert(s[i].port <= s[s.len() - 1].port);
            }
            lemma_filter_none(front, listens_on(n));
            assert(front.filter(listens_below(n)).push(x) + Seq::<Binding>::empty() =~= (
            front.filter(listens_below(n)) + Seq::<Binding>::empty()).push(x));
        } else if x.port == n {
            assert(front.filter(listens_below(n)) + on_port(front, n).push(x) =~= (front.filter(
                listens_below(n),
            ) + on_port(front, n)).push(x));
        }
    }
}

/// The bindings of `s` on the ports below `n`, port by port, are the bindings
/// below port `n` of any ordered sequence that has on every port what `s` has
/// on it.
proof fn lemma_through_port_unique(o: Seq<Binding>, s: Seq<Binding>, n: nat)
    requires
        ordered(o),
        forall|port: int| on_port(o, port) == on_port(s, port),
    ensures
        through_port(s, n) == o.filter(listens_below(n as int)),
    decreases n,
{
    if n == 0 {
        lemma_filter_none(o, listens_below(0));
    } else {
        lemma_through_port_unique(o, s, (n - 1) as nat);
        lemma_ordered_split(o, n - 1);
    }
}

/// Ordering by port is settled by two things: the result is ordered, and on
/// every port it holds what the input holds on it, in the same order. No other
/// sequence has both.
pub proof fn lemma_by_port_unique(o: Seq<Binding>, s: Seq<Binding>)
    requires
        ordered(o),
        forall|port: int| on_port(o, port) == on_port(s, port),
    ensures
        o == by_port(s),
{
    lemma_through_port_unique(o, s, 65536);
    lemma_filter_all(o, listens_below(65536));
}

/// Ordering by port gives an ordered sequence, moves no binding past another
/// on the same port, and neither adds nor drops a binding.
pub proof fn lemma_by_port_stable(s: Seq<Binding>)
    ensures
        ordered(by_port(s)),
        forall|port: int| on_port(by_port(s), port) == on_port(s, port),
        by_port(s).to_multiset() == s.to_multiset(),
        by_port(s).len() == s.len(),
{
    lemma_through_port_ordered(s, 65536);
    assert forall|port: int| on_port(by_port(s), port) == on_port(s, port) by {
        lemma_through_port_keeps(s, 65536, port);
        if port >= 65536 {
            lemma_filter_none(s, listens_on(port));
        }
    }
    lemma_through_port_permutes(s, 65536);
    lemma_filter_all(s, listens_below(65536));
    by_port(s).to_multiset_ensures();
    s.to_multiset_ensures();
}

/// Splitting the bindings below port `n + 1` into those below `n` and those on
/// `n` neither adds nor drops a binding.
proof fn lemma_split_permutes(s: Seq<Binding>, n: int)
    ensures
        s.filter(listens_below(n + 1)).to_multiset() == s.filter(listens_below(n)).to_multiset().add(
            on_port(s, n).to_multiset(),
        ),
    decreases s.len(),
{
    broadcast use vstd::seq_lib::group_to_multiset_ensures;

    if s.len() == 0 {
        lemma_filter_none(s, listens_below(n));
        lemma_filter_none(s, listens_on(n));
        lemma_filter_none(s, listens_below(n + 1));
        assert(Seq::<Binding>::empty().to_multiset() =~= Seq::<Binding>::empty().to_multiset().add(
            Seq::<Binding>::empty().to_multiset(),
        ));
    } else {
        let front = s.drop_last();
        let x = s.last();
        assert(front.push(x) =~= s);
        lemma_split_permutes(front, n);
        lemma_filter_push(front, x, listens_below(n));
        lemma_filter_push(front, x, listens_on(n));
        lemma_filter_push(front, x, listens_below(n + 1));
        assert(s.filter(listens_below(n + 1)).to_multiset() =~= s.filter(
            listens_below(n),
        ).to_multiset().add(on_port(s, n).to_multiset()));
    }
}

/// The bindings on the ports below `n`, port by port, are the bindings of `s`
/// below port `n`, each as often as `s` has it.
proof fn lemma_through_port_permutes(s: Seq<Binding>, n: nat)
    ensures
        through_port(s, n).to_multiset() == s.filter(listens_below(n as int)).to_multiset(),
    decreases n,
{
    if n == 0 {
        lemma_filter_none(s, listens_below(0));
    } else {
        lemma_through_port_permutes(s, (n - 1) as nat);
        lemma_split_permutes(s, n - 1);
        vstd::seq_lib::lemma_multiset_commutative(through_port(s, (n - 1) as nat), on_port(s, n - 1));
    }
}

/// The display list holds a binding exactly if the scan holds it and it is
/// retained: its port is in range and its name is not excluded. Each such
/// binding is there as often as the scan holds it.
pub proof fn lemma_display_list_retains(scan: Seq<Binding>, config: FilterConfig, binding: Binding)
    ensures
        display_list(scan, config).contains(binding) <==> scan.contains(binding) && retained(
            binding,
            config,
        ),
        display_list(scan, config).to_multiset().count(binding) == if retained(binding, config) {
            scan.to_multiset().count(binding)
        } else {
            0
        },
{
    broadcast use vstd::seq_lib::group_to_multiset_ensures;

    let kept = scan.filter(keeps(config));
    lemma_by_port_stable(kept);
    lemma_filter_members(scan, keeps(config), binding);
    lemma_filter_count(scan, keeps(config), binding);
}

/// A filtered sequence holds an element that passes as often as the sequence
/// holds it, and holds no element that does not pass.
proof fn lemma_filter_count(s: Seq<Binding>, pred: spec_fn(Binding) -> bool, x: Binding)
    ensures
        s.filter(pred).to_multiset().count(x) == if pred(x) {
            s.to_multiset().count(x)
        } else {
            0
        },
    decreases s.len(),
{
    broadcast use vstd::seq_lib::group_to_multiset_ensures;

    if s.len() == 0 {
        lemma_filter_none(s, pred);
        assert(!s.contains(x));
    } else {
        let front = s.drop_last();
        assert(front.push(s.last()) =~= s);
        lemma_filter_count(front, pred, x);
        lemma_filter_push(front, s.last(), pred);
    }
}

/// The display list is ordered by port, and on every port it holds the
/// retained bindings of the scan in the order of the scan.
pub proof fn lemma_display_list_stable(scan: Seq<Binding>, config: FilterConfig)
    ensures
        ordered(display_list(scan, config)),
        forall|port: int|
            on_port(display_list(scan, config), port) == on_port(scan.filter(keeps(config)), port),
        display_list(scan, config).len() <= scan.len(),
{
    lemma_by_port_stable(scan.filter(keeps(config)));
    scan.lemma_filter_len(keeps(config));
}

/// Filtering is a function of its inputs: two display lists of the same scan
/// under the same configuration are the same list. And filtering a display
/// list again under the same configuration changes nothing.
pub proof fn lemma_display_list_idempotent(
    first: Seq<Binding>,
    second: Seq<Binding>,
    scan: Seq<Binding>,
    config: FilterConfig,
)
    requires
        first == display_list(scan, config),
        second == display_list(scan, config),
    ensures
        first == second,
        display_list(first, config) == first,
{
    assert forall|i: int| 0 <= i < first.len() implies keeps(config)(#[trigger] first[i]) by {
        lemma_display_list_retains(scan, config, first[i]);
    }
    lemma_filter_all(first, keeps(config));
    lemma_by_port_stable(scan.filter(keeps(config)));
    lemma_by_port_unique(first, first);
}

/// Tells whether one of `patterns` is a piece of `name`.
fn is_excluded(name: &Vec<char>, patterns: &Vec<Vec<char>>) -> (found: bool)
    ensures
        found == exists|i: int|
            0 <= i < patterns.len() && is_substring((#[trigger] patterns@[i])@, name@),
{
    let n = patterns.len();
    let mut i: usize = 0;
    while i < n
        invariant
            i <= n == patterns.len(),
            forall|k: int| 0 <= k < i ==> !is_substring((#[trigger] patterns@[k])@, name@),
        decreases n - i,
    {
        if contains(name, &patterns[i]) {
            return true;
        }
        i += 1;
    }
    false
}

/// The characters of each excluded text.
fn patterns_of(config: &Config) -> (patterns: Vec<Vec<char>>)
    ensures
        patterns.len() == config@.excluded.len(),
        forall|i: int| 0 <= i < patterns.len() ==> (#[trigger] patterns@[i])@ == config@.excluded[i],
{
    let n = config.filtered_process_names.len();
    let mut patterns: Vec<Vec<char>> = Vec::new();
    let mut i: usize = 0;
    while i < n
        invariant
            i <= n == config.filtered_process_names.len(),
            patterns.len() == i,
            forall|k: int| 0 <= k < i ==> (#[trigger] patterns@[k])@ == config@.excluded[k],
        decreases n - i,
    {
        patterns.push(chars_of(config.filtered_process_names[i].as_str()));
        i += 1;
    }
    patterns
}

/// Where a binding on `port` goes into the ordered list `list`: behind every
/// binding on that port or a lower one.
fn place(list: &Vec<PortBinding>, port: u16) -> (at: usize)
    requires
        ordered(views(list@)),
    ensures
        at <= list.len(),
        forall|i: int| 0 <= i < at ==> (#[trigger] list@[i]).port <= port,
        forall|i: int| at <= i < list.len() ==> (#[trigger] list@[i]).port > port,
{
    let mut at: usize = list.len();
    while at > 0 && list[at - 1].port > port
        invariant
            at <= list.len(),
            forall|i: int| at <= i < list.len() ==> (#[trigger] list@[i]).port > port,
        decreases at,
    {
        at -= 1;
    }
    assert forall|i: int| 0 <= i < at implies (#[trigger] list@[i]).port <= port by {
        assert(views(list@)[i].port <= views(list@)[at - 1].port);
    }
    at
}

/// Putting a binding into an ordered list behind every binding on its port or
/// a lower one, and in front of the others, keeps the list ordered and appends
/// the binding to those on its port.
proof fn lemma_insert_keeps_order(list: Seq<Binding>, at: int, x: Binding, port: int)
    requires
        ordered(list),
        0 <= at <= list.len(),
        forall|i: int| 0 <= i < at ==> (#[trigger] list[i]).port <= x.port,
        forall|i: int| at <= i < list.len() ==> (#[trigger] list[i]).port > x.port,
    ensures
        ordered(list.insert(at, x)),
        on_port(list.insert(at, x), port) == if port == x.port {
            on_port(list, port).push(x)
        } else {
            on_port(list, port)
        },
{
    let grown = list.insert(at, x);
    assert forall|i: int, j: int| 0 <= i < j < grown.len() implies grown[i].port
        <= grown[j].port by {
        if j < at {
            assert(grown[i] == list[i] && grown[j] == list[j]);
        } else if j == at {
            assert(grown[i] == list[i]);
        } else if i < at {
            assert(grown[i] == list[i] && grown[j] == list[j - 1]);
        } else if i == at {
            assert(grown[j] == list[j - 1]);
        } else {
            assert(grown[i] == list[i - 1] && grown[j] == list[j - 1]);
        }
    }
    let front = list.take(at);
    let back = list.skip(at);
    let pred = listens_on(port);
    assert(grown =~= front.push(x) + back);
    assert(list =~= front + back);
    lemma_filter_push(front, x, pred);
    assert((front.push(x) + back).filter(pred) == front.push(x).filter(pred) + back.filter(pred));
    assert((front + back).filter(pred) == front.filter(pred) + back.filter(pred));
    if port == x.port {
        assert forall|i: int| 0 <= i < back.len() implies !pred(#[trigger] back[i]) by {
            assert(back[i] == list[at + i]);
        }
        lemma_filter_none(back, pred);
    }
}

/// The display list of a scan under a configuration: the bindings of the scan
/// whose port is in range and whose name holds no excluded text, in ascending
/// order of port, bindings on the same port in the order of the scan.
pub fn apply(bindings: &Vec<PortBinding>, config: &Config) -> (shown: Vec<PortBinding>)
    ensures
        views(shown@) == display_list(views(bindings@), config@),
        forall|binding: Binding| #[trigger]
            views(shown@).contains(binding) <==> views(bindings@).contains(binding) && retained(
                binding,
                config@,
            ),
        ordered(views(shown@)),
        forall|port: int| #[trigger]
            on_port(views(shown@), port) == on_port(views(bindings@).filter(keeps(config@)), port),
{
    let patterns = patterns_of(config);
    let n = bindings.len();
    let ghost scan = views(bindings@);
    let ghost test = keeps(config@);
    let mut shown: Vec<PortBinding> = Vec::new();
    let mut i: usize = 0;
    proof {
        lemma_filter_none(scan.take(0), test);
        assert forall|port: int| on_port(views(shown@), port) == on_port(scan.take(0).filter(test), port) by {
            lemma_filter_none(views(shown@), listens_on(port));
            lemma_filter_none(scan.take(0).filter(test), listens_on(port));
        }
    }
    while i < n
        invariant
            i <= n == bindings.len(),
            scan == views(bindings@),
            test == keeps(config@),
            patterns.len() == config@.excluded.len(),
            forall|k: int| 0 <= k < patterns.len() ==> (#[trigger] patterns@[k])@ == config@.excluded[k],
            ordered(views(shown@)),
            forall|port: int|
                on_port(views(shown@), port) == on_port(scan.take(i as int).filter(test), port),
        decreases n - i,
    {
        let binding = &bindings[i];
        let ghost x = binding@;
        let ghost before = views(shown@);
        let ghost kept = scan.take(i as int).filter(test);
        proof {
            assert(scan.take(i + 1) =~= scan.take(i as int).push(x));
            lemma_filter_push(scan.take(i as int), x, test);
        }
        let in_range = config.min_port <= binding.port && binding.port <= config.max_port;
        let name = chars_of(binding.name.as_str());
        let excluded = is_excluded(&name, &patterns);
        proof {
            if excluded {
                let k = choose|k: int|
                    0 <= k < patterns.len() && is_substring((#[trigger] patterns@[k])@, name@);
                assert(is_substring(config@.excluded[k], x.name));
            }
            if excludes(config@, x.name) {
                let k = choose|k: int|
                    0 <= k < config@.excluded.len() && is_substring(
                        #[trigger] config@.excluded[k],
                        x.name,
                    );
                assert(is_substring(patterns@[k]@, name@));
            }
            assert(test(x) == (in_range && !excluded));
        }
        if in_range && !excluded {
            let at = place(&shown, binding.port);
            let copy = binding.clone();
            proof {
                assert forall|port: int|
                    on_port(before.insert(at as int, x), port) == on_port(kept.push(x), port) by {
                    lemma_insert_keeps_order(before, at as int, x, port);
                    lemma_filter_push(kept, x, listens_on(port));
                }
                lemma_insert_keeps_order(before, at as int, x, x.port as int);
            }
            shown.insert(at, copy);
            assert(views(shown@) =~= before.insert(at as int, x));
        }
        i += 1;
    }
    proof {
        assert(scan.take(n as int) =~= scan);
        lemma_by_port_unique(views(shown@), scan.filter(test));
        assert forall|binding: Binding| #[trigger]
            views(shown@).contains(binding) <==> scan.contains(binding) && retained(
                binding,
                config@,
            ) by {
            lemma_display_list_retains(scan, config@, binding);
        }
    }
    shown
}

} // verus!

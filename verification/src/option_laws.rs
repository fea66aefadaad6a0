//! Laws of the command-line readers for every order of the options.
//!
//! A command line in front of `--` is described as a sequence of groups: a
//! flag, an option key with its value, or a free word. When every key occurs
//! only as the key of its group, at most once, the readers give the same
//! result whatever the order of the groups.

use vstd::prelude::*;
use crate::seqs::{first_index, lemma_first_index, lemma_first_index_is};
use crate::cli::{
    take_flag_model, lookup_value, ValueLookup, optional_u16, required_value, optional_value,
    free_u64, wants_help, text_number, listen_target, PortOrFd,
    CliErrorView, ArgsErrorView, DEFAULT_AUTH_PORT, cli_text_model, daemon_address, DaemonAddressView,
    InvocationView, OptionsView,
};
use crate::proxy::{proxy_text_model, proxy_args_model, ProxyInvocationView, ProxyOptionsView};
use crate::cli::{cli_model, split_command, marked_texts, stand_in, all_text};

verus! {

/// One group of words of a command line.
pub enum ArgGroup {
    /// A flag on its own.
    Flag(Seq<char>),
    /// An option key followed by its value.
    Pair(Seq<char>, Seq<char>),
    /// A free word.
    Free(Seq<char>),
}

/// The words of one group.
pub open spec fn group_words(g: ArgGroup) -> Seq<Seq<char>> {
    match g {
        ArgGroup::Flag(k) => seq![k],
        ArgGroup::Pair(k, v) => seq![k, v],
        ArgGroup::Free(w) => seq![w],
    }
}

/// The words of the groups, in order.
pub open spec fn arg_words(gs: Seq<ArgGroup>) -> Seq<Seq<char>>
    decreases gs.len(),
{
    if gs.len() == 0 {
        Seq::empty()
    } else {
        group_words(gs[0]) + arg_words(gs.drop_first())
    }
}

/// The key of a group, if it has one.
pub open spec fn group_key(g: ArgGroup) -> Option<Seq<char>> {
    match g {
        ArgGroup::Flag(k) => Some(k),
        ArgGroup::Pair(k, _) => Some(k),
        ArgGroup::Free(_) => None,
    }
}

/// How many groups have the key `k`.
pub open spec fn count_key(gs: Seq<ArgGroup>, k: Seq<char>) -> nat
    decreases gs.len(),
{
    if gs.len() == 0 {
        0
    } else {
        (if group_key(gs[0]) == Some(k) {
            1nat
        } else {
            0nat
        }) + count_key(gs.drop_first(), k)
    }
}

/// The groups without those of key `k`.
pub open spec fn without_key(gs: Seq<ArgGroup>, k: Seq<char>) -> Seq<ArgGroup>
    decreases gs.len(),
{
    if gs.len() == 0 {
        gs
    } else if group_key(gs[0]) == Some(k) {
        without_key(gs.drop_first(), k)
    } else {
        seq![gs[0]] + without_key(gs.drop_first(), k)
    }
}

/// The value of the first option of key `k`.
pub open spec fn value_of(gs: Seq<ArgGroup>, k: Seq<char>) -> Option<Seq<char>>
    decreases gs.len(),
{
    if gs.len() == 0 {
        None
    } else {
        match gs[0] {
            ArgGroup::Pair(k2, v) => if k2 == k {
                Some(v)
            } else {
                value_of(gs.drop_first(), k)
            },
            _ => value_of(gs.drop_first(), k),
        }
    }
}

/// `w` occurs in the words only as the key of a group.
pub open spec fn only_as_key(gs: Seq<ArgGroup>, w: Seq<char>) -> bool
    decreases gs.len(),
{
    if gs.len() == 0 {
        true
    } else {
        (match gs[0] {
            ArgGroup::Flag(_) => true,
            ArgGroup::Pair(_, v) => v != w,
            ArgGroup::Free(f) => f != w,
        }) && only_as_key(gs.drop_first(), w)
    }
}

/// No group is the flag `k`.
pub open spec fn no_flag(gs: Seq<ArgGroup>, k: Seq<char>) -> bool
    decreases gs.len(),
{
    if gs.len() == 0 {
        true
    } else {
        gs[0] != ArgGroup::Flag(k) && no_flag(gs.drop_first(), k)
    }
}

/// No group is an option of key `k`.
pub open spec fn no_pair(gs: Seq<ArgGroup>, k: Seq<char>) -> bool
    decreases gs.len(),
{
    if gs.len() == 0 {
        true
    } else {
        !(gs[0] matches ArgGroup::Pair(k2, _) && k2 == k) && no_pair(gs.drop_first(), k)
    }
}

/// How many free words there are.
pub open spec fn free_count(gs: Seq<ArgGroup>) -> nat
    decreases gs.len(),
{
    if gs.len() == 0 {
        0
    } else {
        (if gs[0] is Free {
            1nat
        } else {
            0nat
        }) + free_count(gs.drop_first())
    }
}

/// The first free word.
pub open spec fn free_word(gs: Seq<ArgGroup>) -> Seq<char>
    decreases gs.len(),
{
    if gs.len() == 0 {
        Seq::empty()
    } else {
        match gs[0] {
            ArgGroup::Free(w) => w,
            _ => free_word(gs.drop_first()),
        }
    }
}

/// Every group is a free word.
pub open spec fn all_free(gs: Seq<ArgGroup>) -> bool
    decreases gs.len(),
{
    if gs.len() == 0 {
        true
    } else {
        gs[0] is Free && all_free(gs.drop_first())
    }
}

/// Every group is a free word or has one of the keys `ks`.
pub open spec fn keys_within(gs: Seq<ArgGroup>, ks: Set<Seq<char>>) -> bool
    decreases gs.len(),
{
    if gs.len() == 0 {
        true
    } else {
        (match group_key(gs[0]) {
            Some(k) => ks.contains(k),
            None => true,
        }) && keys_within(gs.drop_first(), ks)
    }
}

/// Dropping the groups of one key leaves the other keys.
pub proof fn lemma_without_keys_within(gs: Seq<ArgGroup>, ks: Set<Seq<char>>, k: Seq<char>)
    requires
        keys_within(gs, ks),
    ensures
        keys_within(without_key(gs, k), ks.remove(k)),
    decreases gs.len(),
{
    if gs.len() > 0 {
        lemma_without_keys_within(gs.drop_first(), ks, k);
        if group_key(gs[0]) != Some(k) {
            assert((seq![gs[0]] + without_key(gs.drop_first(), k)).drop_first() == without_key(gs.drop_first(), k));
        }
    }
}

/// Without any key left, all groups are free words.
pub proof fn lemma_no_keys_all_free(gs: Seq<ArgGroup>, ks: Set<Seq<char>>)
    requires
        keys_within(gs, ks),
        ks == Set::<Seq<char>>::empty(),
    ensures
        all_free(gs),
    decreases gs.len(),
{
    if gs.len() > 0 {
        lemma_no_keys_all_free(gs.drop_first(), ks);
    }
}

/// A word outside the keys is the key of no group.
pub proof fn lemma_not_a_key(gs: Seq<ArgGroup>, ks: Set<Seq<char>>, w: Seq<char>)
    requires
        keys_within(gs, ks),
        !ks.contains(w),
    ensures
        count_key(gs, w) == 0,
    decreases gs.len(),
{
    if gs.len() > 0 {
        lemma_not_a_key(gs.drop_first(), ks, w);
    }
}

/// An option whose key occurs and is never a flag has a value.
pub proof fn lemma_value_present(gs: Seq<ArgGroup>, k: Seq<char>)
    requires
        no_flag(gs, k),
    ensures
        (value_of(gs, k) is Some) == (count_key(gs, k) > 0),
    decreases gs.len(),
{
    if gs.len() > 0 {
        lemma_value_present(gs.drop_first(), k);
    }
}

proof fn lemma_arg_words_cons(gs: Seq<ArgGroup>)
    requires
        gs.len() > 0,
    ensures
        arg_words(gs) == group_words(gs[0]) + arg_words(gs.drop_first()),
{
}

/// A prefix without `k` shifts where the option `k` is found.
proof fn lemma_lookup_prefix(h: Seq<Seq<char>>, rest: Seq<Seq<char>>, k: Seq<char>)
    requires
        !h.contains(k),
    ensures
        lookup_value(h + rest, k) == match lookup_value(rest, k) {
            ValueLookup::Found(v, r) => ValueLookup::Found(v, h + r),
            other => other,
        },
{
    let s = h + rest;
    lemma_first_index(rest, k);
    match first_index(rest, k) {
        Some(i) => {
            assert forall|j: int| 0 <= j < h.len() + i implies s[j] != k by {
                if j < h.len() {
                    assert(s[j] == h[j]);
                } else {
                    assert(s[j] == rest[j - h.len()]);
                }
            }
            assert(s[h.len() + i] == k);
            lemma_first_index_is(s, k, h.len() + i);
            if i + 1 < rest.len() {
                assert(s[h.len() + i + 1] == rest[i + 1]);
                assert(s.take(h.len() + i) + s.skip(h.len() + i + 2) == h + (rest.take(i) + rest.skip(i + 2)));
            }
        },
        None => {
            lemma_first_index(s, k);
            if s.contains(k) {
                let j = choose|j: int| 0 <= j < s.len() && s[j] == k;
                if j < h.len() {
                    assert(h[j] == k);
                } else {
                    assert(rest[j - h.len()] == k);
                }
            }
        },
    }
}

/// A prefix without `k` stays in front when the flag `k` is taken.
proof fn lemma_flag_prefix(h: Seq<Seq<char>>, rest: Seq<Seq<char>>, k: Seq<char>)
    requires
        !h.contains(k),
    ensures
        take_flag_model(h + rest, k) == (take_flag_model(rest, k).0, h + take_flag_model(rest, k).1),
{
    let s = h + rest;
    lemma_first_index(rest, k);
    match first_index(rest, k) {
        Some(i) => {
            assert forall|j: int| 0 <= j < h.len() + i implies s[j] != k by {
                if j < h.len() {
                    assert(s[j] == h[j]);
                } else {
                    assert(s[j] == rest[j - h.len()]);
                }
            }
            assert(s[h.len() + i] == k);
            lemma_first_index_is(s, k, h.len() + i);
            assert(s.remove(h.len() + i) == h + rest.remove(i));
        },
        None => {
            lemma_first_index(s, k);
            if s.contains(k) {
                let j = choose|j: int| 0 <= j < s.len() && s[j] == k;
                if j < h.len() {
                    assert(h[j] == k);
                } else {
                    assert(rest[j - h.len()] == k);
                }
            }
        },
    }
}

/// Without groups of key `k`, dropping them changes nothing.
proof fn lemma_without_absent(gs: Seq<ArgGroup>, k: Seq<char>)
    requires
        count_key(gs, k) == 0,
    ensures
        without_key(gs, k) == gs,
    decreases gs.len(),
{
    if gs.len() > 0 {
        lemma_without_absent(gs.drop_first(), k);
        assert(seq![gs[0]] + gs.drop_first() == gs);
    }
}

/// Taking the option `k` from the words finds the value of its only group
/// and leaves the words of the other groups.
pub proof fn lemma_lookup_groups(gs: Seq<ArgGroup>, k: Seq<char>)
    requires
        count_key(gs, k) <= 1,
        only_as_key(gs, k),
        no_flag(gs, k),
    ensures
        lookup_value(arg_words(gs), k) == match value_of(gs, k) {
            Some(v) => ValueLookup::Found(v, arg_words(without_key(gs, k))),
            None => ValueLookup::Missing,
        },
    decreases gs.len(),
{
    if gs.len() == 0 {
        lemma_first_index(arg_words(gs), k);
    } else {
        let g = gs[0];
        let tail = gs.drop_first();
        lemma_arg_words_cons(gs);
        if group_key(g) == Some(k) {
            lemma_without_absent(tail, k);
            let s = arg_words(gs);
            assert(s[0] == k);
            lemma_first_index_is(s, k, 0);
            assert(s.take(0) + s.skip(2) == arg_words(tail));
        } else {
            lemma_lookup_groups(tail, k);
            assert(!group_words(g).contains(k));
            lemma_lookup_prefix(group_words(g), arg_words(tail), k);
            lemma_arg_words_cons(without_key(gs, k));
            assert(without_key(gs, k).drop_first() == without_key(tail, k));
        }
    }
}

/// Taking the flag `k` from the words says whether its group is there and
/// leaves the words of the other groups.
pub proof fn lemma_flag_groups(gs: Seq<ArgGroup>, k: Seq<char>)
    requires
        count_key(gs, k) <= 1,
        only_as_key(gs, k),
        no_pair(gs, k),
    ensures
        take_flag_model(arg_words(gs), k) == (count_key(gs, k) == 1, arg_words(without_key(gs, k))),
    decreases gs.len(),
{
    if gs.len() == 0 {
        lemma_first_index(arg_words(gs), k);
    } else {
        let g = gs[0];
        let tail = gs.drop_first();
        lemma_arg_words_cons(gs);
        if group_key(g) == Some(k) {
            lemma_without_absent(tail, k);
            let s = arg_words(gs);
            assert(s[0] == k);
            lemma_first_index_is(s, k, 0);
            assert(s.remove(0) == arg_words(tail));
        } else {
            lemma_flag_groups(tail, k);
            assert(!group_words(g).contains(k));
            lemma_flag_prefix(group_words(g), arg_words(tail), k);
            lemma_arg_words_cons(without_key(gs, k));
            assert(without_key(gs, k).drop_first() == without_key(tail, k));
        }
    }
}

/// Dropping the groups of key `k` keeps everything about other keys and
/// about free words.
pub proof fn lemma_without_keeps(gs: Seq<ArgGroup>, k: Seq<char>, k2: Seq<char>)
    requires
        k != k2,
    ensures
        count_key(without_key(gs, k), k) == 0,
        count_key(without_key(gs, k), k2) == count_key(gs, k2),
        value_of(without_key(gs, k), k2) == value_of(gs, k2),
        only_as_key(gs, k2) ==> only_as_key(without_key(gs, k), k2),
        no_flag(gs, k2) ==> no_flag(without_key(gs, k), k2),
        no_pair(gs, k2) ==> no_pair(without_key(gs, k), k2),
        free_count(without_key(gs, k)) == free_count(gs),
        free_word(without_key(gs, k)) == free_word(gs),
    decreases gs.len(),
{
    if gs.len() > 0 {
        lemma_without_keeps(gs.drop_first(), k, k2);
        if group_key(gs[0]) != Some(k) {
            assert((seq![gs[0]] + without_key(gs.drop_first(), k)).drop_first() == without_key(gs.drop_first(), k));
        }
    }
}

/// Whatever is dropped, a word that occurs only as a key keeps doing so.
pub proof fn lemma_without_keeps_only_as_key(gs: Seq<ArgGroup>, k: Seq<char>, w: Seq<char>)
    requires
        only_as_key(gs, w),
    ensures
        only_as_key(without_key(gs, k), w),
    decreases gs.len(),
{
    if gs.len() > 0 {
        lemma_without_keeps_only_as_key(gs.drop_first(), k, w);
        if group_key(gs[0]) != Some(k) {
            assert((seq![gs[0]] + without_key(gs.drop_first(), k)).drop_first() == without_key(gs.drop_first(), k));
        }
    }
}

/// A word that is no key of any group and no other word is not among the
/// words.
pub proof fn lemma_absent_word(gs: Seq<ArgGroup>, w: Seq<char>)
    requires
        only_as_key(gs, w),
        count_key(gs, w) == 0,
    ensures
        !arg_words(gs).contains(w),
    decreases gs.len(),
{
    if gs.len() > 0 {
        lemma_absent_word(gs.drop_first(), w);
        lemma_arg_words_cons(gs);
        let h = group_words(gs[0]);
        let r = arg_words(gs.drop_first());
        if (h + r).contains(w) {
            let j = choose|j: int| 0 <= j < (h + r).len() && (h + r)[j] == w;
            if j < h.len() {
                assert(h[j] == w);
            } else {
                assert(r[j - h.len()] == w);
            }
        }
    }
}

/// Groups that are only free words, one of them: the words are that word.
pub proof fn lemma_single_free(gs: Seq<ArgGroup>)
    requires
        all_free(gs),
        free_count(gs) == 1,
    ensures
        arg_words(gs) == seq![free_word(gs)],
    decreases gs.len(),
{
    if gs.len() > 0 {
        lemma_arg_words_cons(gs);
        if free_count(gs.drop_first()) == 1 {
            lemma_single_free(gs.drop_first());
        } else {
            lemma_no_free(gs.drop_first());
        }
    }
}

proof fn lemma_no_free(gs: Seq<ArgGroup>)
    requires
        all_free(gs),
        free_count(gs) == 0,
    ensures
        arg_words(gs) == Seq::<Seq<char>>::empty(),
    decreases gs.len(),
{
    if gs.len() > 0 {
        lemma_no_free(gs.drop_first());
    }
}

/// A 16-bit option value, if given: the number, or the error for a value
/// that is not one.
pub open spec fn port_value(v: Option<Seq<char>>) -> Result<Option<u16>, CliErrorView> {
    match v {
        None => Ok(None),
        Some(t) => match text_number(t, u16::MAX as nat) {
            Some(n) => Ok(Some(n as u16)),
            None => Err(CliErrorView::InvalidNumber(t)),
        },
    }
}

/// The listen target named by the free word, or the error.
pub open spec fn listen_of(gs: Seq<ArgGroup>, as_fd: bool) -> Result<PortOrFd, CliErrorView> {
    match text_number(free_word(gs), u64::MAX as nat) {
        None => Err(CliErrorView::InvalidNumber(free_word(gs))),
        Some(n) => listen_target((n as u64) as nat, as_fd),
    }
}

/// What the proxy's reader gives for groups of its options in any order.
pub open spec fn proxy_groups_outcome(gs: Seq<ArgGroup>, command: Seq<Seq<u8>>) -> Result<ProxyInvocationView, CliErrorView> {
    match port_value(value_of(gs, "--authport"@)) {
        Err(e) => Err(e),
        Ok(port) => match value_of(gs, "--path"@) {
            None => Err(CliErrorView::Arguments(ArgsErrorView::MissingOption("--path"@))),
            Some(path) => match listen_of(gs, count_key(gs, "--port-as-fd"@) == 1) {
                Err(e) => Err(e),
                Ok(target) => Ok(ProxyInvocationView::Run(ProxyOptionsView {
                    terminal_command: command,
                    listen_port: target,
                    api_daemon_port: match port {
                        Some(p) => p,
                        None => DEFAULT_AUTH_PORT,
                    },
                    acl_path: path,
                    acl_permission: value_of(gs, "--perm"@),
                })),
            },
        },
    }
}

/// The keys of the proxy's reader.
pub open spec fn proxy_keys() -> Set<Seq<char>> {
    set!["--port-as-fd"@, "--authport"@, "--path"@, "--perm"@]
}

/// Groups that the proxy's reader takes in any order: the flag
/// `--port-as-fd`, the options `--authport`, `--path` and `--perm`, each at
/// most once, and one free word; no value or free word is a key or asks for
/// help.
pub open spec fn proxy_groups(gs: Seq<ArgGroup>) -> bool {
    &&& keys_within(gs, proxy_keys())
    &&& no_pair(gs, "--port-as-fd"@)
    &&& no_flag(gs, "--authport"@)
    &&& no_flag(gs, "--path"@)
    &&& no_flag(gs, "--perm"@)
    &&& count_key(gs, "--port-as-fd"@) <= 1
    &&& count_key(gs, "--authport"@) <= 1
    &&& count_key(gs, "--path"@) <= 1
    &&& count_key(gs, "--perm"@) <= 1
    &&& free_count(gs) == 1
    &&& only_as_key(gs, "--port-as-fd"@)
    &&& only_as_key(gs, "--authport"@)
    &&& only_as_key(gs, "--path"@)
    &&& only_as_key(gs, "--perm"@)
    &&& only_as_key(gs, "-h"@)
    &&& only_as_key(gs, "--help"@)
}

/// The groups left after the proxy's reader took each of its options.
pub open spec fn proxy_rest(gs: Seq<ArgGroup>, n: nat) -> Seq<ArgGroup> {
    let g1 = without_key(gs, "--port-as-fd"@);
    let g2 = without_key(g1, "--authport"@);
    let g3 = without_key(g2, "--path"@);
    if n == 1 { g1 } else if n == 2 { g2 } else if n == 3 { g3 } else { without_key(g3, "--perm"@) }
}

/// What the proxy's reader finds, step by step, in groups of its options.
proof fn lemma_proxy_steps(gs: Seq<ArgGroup>)
    requires
        proxy_groups(gs),
    ensures
        !wants_help(arg_words(gs)),
        take_flag_model(arg_words(gs), "--port-as-fd"@) == (count_key(gs, "--port-as-fd"@) == 1, arg_words(proxy_rest(gs, 1))),
        lookup_value(arg_words(proxy_rest(gs, 1)), "--authport"@) == match value_of(gs, "--authport"@) {
            Some(v) => ValueLookup::Found(v, arg_words(proxy_rest(gs, 2))),
            None => ValueLookup::Missing,
        },
        lookup_value(arg_words(proxy_rest(gs, 2)), "--path"@) == match value_of(gs, "--path"@) {
            Some(v) => ValueLookup::Found(v, arg_words(proxy_rest(gs, 3))),
            None => ValueLookup::Missing,
        },
        lookup_value(arg_words(proxy_rest(gs, 3)), "--perm"@) == match value_of(gs, "--perm"@) {
            Some(v) => ValueLookup::Found(v, arg_words(proxy_rest(gs, 4))),
            None => ValueLookup::Missing,
        },
        arg_words(proxy_rest(gs, 4)) == seq![free_word(gs)],
        value_of(gs, "--authport"@) is None ==> proxy_rest(gs, 2) == proxy_rest(gs, 1),
        value_of(gs, "--perm"@) is None ==> proxy_rest(gs, 4) == proxy_rest(gs, 3),
{
    reveal_strlit("--port-as-fd");
    reveal_strlit("--authport");
    reveal_strlit("--path");
    reveal_strlit("--perm");
    reveal_strlit("-h");
    reveal_strlit("--help");
    let pfd = "--port-as-fd"@;
    let ap = "--authport"@;
    let path = "--path"@;
    let perm = "--perm"@;
    assert(pfd.len() == 12 && ap.len() == 10 && path.len() == 6 && perm.len() == 6);
    assert(path[3] != perm[3]);
    assert("-h"@.len() == 2 && "--help"@.len() == 6 && "--help"@[2] != path[2] && "--help"@[2] != perm[2]);
    let ks = proxy_keys();
    let g1 = proxy_rest(gs, 1);
    let g2 = proxy_rest(gs, 2);
    let g3 = proxy_rest(gs, 3);
    let g4 = proxy_rest(gs, 4);
    assert(!wants_help(arg_words(gs))) by {
        lemma_not_a_key(gs, ks, "-h"@);
        lemma_not_a_key(gs, ks, "--help"@);
        lemma_absent_word(gs, "-h"@);
        lemma_absent_word(gs, "--help"@);
    }
    lemma_flag_groups(gs, pfd);
    assert(count_key(g1, ap) <= 1 && only_as_key(g1, ap) && no_flag(g1, ap) && value_of(g1, ap) == value_of(gs, ap)) by {
        lemma_without_keeps(gs, pfd, ap);
        lemma_without_keeps_only_as_key(gs, pfd, ap);
    }
    lemma_lookup_groups(g1, ap);
    lemma_value_present(g1, ap);
    if count_key(g1, ap) == 0 {
        lemma_without_absent(g1, ap);
    }
    assert(count_key(g2, path) <= 1 && only_as_key(g2, path) && no_flag(g2, path) && value_of(g2, path) == value_of(gs, path)) by {
        lemma_without_keeps(gs, pfd, path);
        lemma_without_keeps_only_as_key(gs, pfd, path);
        lemma_without_keeps(g1, ap, path);
        lemma_without_keeps_only_as_key(g1, ap, path);
    }
    lemma_lookup_groups(g2, path);
    assert(count_key(g3, perm) <= 1 && only_as_key(g3, perm) && no_flag(g3, perm) && value_of(g3, perm) == value_of(gs, perm)) by {
        lemma_without_keeps(gs, pfd, perm);
        lemma_without_keeps_only_as_key(gs, pfd, perm);
        lemma_without_keeps(g1, ap, perm);
        lemma_without_keeps_only_as_key(g1, ap, perm);
        lemma_without_keeps(g2, path, perm);
        lemma_without_keeps_only_as_key(g2, path, perm);
    }
    lemma_lookup_groups(g3, perm);
    lemma_value_present(g3, perm);
    if count_key(g3, perm) == 0 {
        lemma_without_absent(g3, perm);
    }
    assert(arg_words(g4) == seq![free_word(gs)]) by {
        lemma_without_keeps(gs, pfd, ap);
        lemma_without_keeps(g1, ap, path);
        lemma_without_keeps(g2, path, perm);
        lemma_without_keeps(g3, perm, path);
        lemma_without_keys_within(gs, ks, pfd);
        lemma_without_keys_within(g1, ks.remove(pfd), ap);
        lemma_without_keys_within(g2, ks.remove(pfd).remove(ap), path);
        lemma_without_keys_within(g3, ks.remove(pfd).remove(ap).remove(path), perm);
        assert(ks.remove(pfd).remove(ap).remove(path).remove(perm) == Set::<Seq<char>>::empty());
        lemma_no_keys_all_free(g4, ks.remove(pfd).remove(ap).remove(path).remove(perm));
        lemma_single_free(g4);
    }
}

/// Law of the proxy's reader: for options in any order, the result depends
/// only on which options are given with which values: the listen port is the
/// free word (a descriptor with `--port-as-fd`), the daemon port the value of
/// `--authport` or 85, the path is required and the permission optional.
pub proof fn lemma_proxy_any_order(gs: Seq<ArgGroup>, command: Seq<Seq<u8>>)
    requires
        proxy_groups(gs),
    ensures
        proxy_text_model(arg_words(gs), Some(command)) == proxy_groups_outcome(gs, command),
{
    lemma_proxy_steps(gs);
    let pfd = "--port-as-fd"@;
    let ap = "--authport"@;
    let path = "--path"@;
    let perm = "--perm"@;
    let a1 = arg_words(proxy_rest(gs, 1));
    let a2 = arg_words(proxy_rest(gs, 2));
    let a3 = arg_words(proxy_rest(gs, 3));
    let a4 = arg_words(proxy_rest(gs, 4));
    assert(optional_u16(a1, ap, None) == match port_value(value_of(gs, ap)) {
        Err(e) => Err(e),
        Ok(p) => Ok((p, a2)),
    });
    assert(required_value(a2, path, None) == match value_of(gs, path) {
        Some(v) => Ok((v, a3)),
        None => Err(CliErrorView::Arguments(ArgsErrorView::MissingOption(path))),
    });
    assert(optional_value(a3, perm, None) == Ok::<(Option<Seq<char>>, Seq<Seq<char>>), CliErrorView>((value_of(gs, perm), a4)));
    assert(a4.drop_first() == Seq::<Seq<char>>::empty());
    assert(free_u64(a4, None) == match text_number(free_word(gs), u64::MAX as nat) {
        Some(n) => Ok(((n as u64), Seq::<Seq<char>>::empty())),
        None => Err(CliErrorView::InvalidNumber(free_word(gs))),
    });
}

/// Dropping the groups of key `k` keeps what the later steps look at for
/// the key `k2`.
proof fn lemma_keep(g: Seq<ArgGroup>, k: Seq<char>, k2: Seq<char>)
    requires
        k != k2,
    ensures
        count_key(without_key(g, k), k2) == count_key(g, k2),
        value_of(without_key(g, k), k2) == value_of(g, k2),
        only_as_key(g, k2) ==> only_as_key(without_key(g, k), k2),
        no_flag(g, k2) ==> no_flag(without_key(g, k), k2),
        no_pair(g, k2) ==> no_pair(without_key(g, k), k2),
        free_count(without_key(g, k)) == free_count(g),
        free_word(without_key(g, k)) == free_word(g),
{
    lemma_without_keeps(g, k, k2);
}

/// The keys of the options reader.
pub open spec fn cli_keys() -> Set<Seq<char>> {
    set![
        "--port-as-fd"@,
        "--path"@,
        "--perm"@,
        "--authport"@,
        "--auth-port"@,
        "--auth-socket"@,
        "--vncticket-endpoint"@,
    ]
}

/// Groups that the options reader takes in any order: the flags
/// `--port-as-fd` and `--vncticket-endpoint`, the options `--path`,
/// `--perm`, `--authport`, `--auth-port` and `--auth-socket`, each at most
/// once, and one free word; no value or free word is a key or asks for help.
pub open spec fn cli_groups(gs: Seq<ArgGroup>) -> bool {
    &&& keys_within(gs, cli_keys())
    &&& no_pair(gs, "--port-as-fd"@)
    &&& no_pair(gs, "--vncticket-endpoint"@)
    &&& no_flag(gs, "--path"@)
    &&& no_flag(gs, "--perm"@)
    &&& no_flag(gs, "--authport"@)
    &&& no_flag(gs, "--auth-port"@)
    &&& no_flag(gs, "--auth-socket"@)
    &&& forall|k: Seq<char>| #[trigger] cli_keys().contains(k) ==> count_key(gs, k) <= 1 && only_as_key(gs, k)
    &&& free_count(gs) == 1
    &&& only_as_key(gs, "-h"@)
    &&& only_as_key(gs, "--help"@)
}

/// The address of the daemon for the values of `--authport`, `--auth-port`
/// and `--auth-socket`: `--auth-port` wins over `--authport`; a port and a
/// socket together conflict; without any of them, port 85.
pub open spec fn auth_address_choice(legacy: Option<u16>, port: Option<u16>, socket: Option<Seq<char>>) -> Result<DaemonAddressView, CliErrorView> {
    match (port, legacy, socket) {
        (Some(p), _, None) => Ok(DaemonAddressView::Port(p)),
        (None, Some(b), None) => Ok(DaemonAddressView::Port(b)),
        (None, None, Some(s)) => Ok(DaemonAddressView::UnixSocket(s)),
        (None, None, None) => Ok(DaemonAddressView::Port(DEFAULT_AUTH_PORT)),
        _ => Err(CliErrorView::ConflictingAuthOptions),
    }
}

/// What the options reader gives for groups of its options in any order.
pub open spec fn cli_groups_outcome(gs: Seq<ArgGroup>, command: Seq<Seq<u8>>) -> Result<InvocationView, CliErrorView> {
    match value_of(gs, "--path"@) {
        None => Err(CliErrorView::Arguments(ArgsErrorView::MissingOption("--path"@))),
        Some(path) => match port_value(value_of(gs, "--authport"@)) {
            Err(e) => Err(e),
            Ok(legacy) => match port_value(value_of(gs, "--auth-port"@)) {
                Err(e) => Err(e),
                Ok(port) => match auth_address_choice(legacy, port, value_of(gs, "--auth-socket"@)) {
                    Err(e) => Err(e),
                    Ok(address) => match listen_of(gs, count_key(gs, "--port-as-fd"@) == 1) {
                        Err(e) => Err(e),
                        Ok(target) => Ok(InvocationView::Run(OptionsView {
                            terminal_command: command,
                            listen_port: target,
                            api_daemon_address: address,
                            acl_path: path,
                            acl_permission: value_of(gs, "--perm"@),
                            vncticket_endpoint: count_key(gs, "--vncticket-endpoint"@) == 1,
                        })),
                    },
                },
            },
        },
    }
}

/// The groups left after the options reader took its first `n` options.
pub open spec fn cli_rest(gs: Seq<ArgGroup>, n: nat) -> Seq<ArgGroup>
    decreases n,
{
    if n == 0 {
        gs
    } else {
        let key = if n == 1 {
            "--port-as-fd"@
        } else if n == 2 {
            "--path"@
        } else if n == 3 {
            "--perm"@
        } else if n == 4 {
            "--authport"@
        } else if n == 5 {
            "--auth-port"@
        } else if n == 6 {
            "--auth-socket"@
        } else {
            "--vncticket-endpoint"@
        };
        without_key(cli_rest(gs, (n - 1) as nat), key)
    }
}

/// The key of the options reader's step `n`.
pub open spec fn cli_key(n: nat) -> Seq<char> {
    if n == 1 {
        "--port-as-fd"@
    } else if n == 2 {
        "--path"@
    } else if n == 3 {
        "--perm"@
    } else if n == 4 {
        "--authport"@
    } else if n == 5 {
        "--auth-port"@
    } else if n == 6 {
        "--auth-socket"@
    } else {
        "--vncticket-endpoint"@
    }
}

proof fn lemma_cli_keys_distinct()
    ensures
        forall|i: nat, j: nat| 1 <= i <= 7 && 1 <= j <= 7 && i != j ==> cli_key(i) != cli_key(j),
        forall|i: nat| 1 <= i <= 7 ==> cli_keys().contains(#[trigger] cli_key(i)),
        !cli_keys().contains("-h"@),
        !cli_keys().contains("--help"@),
{
    reveal_strlit("--port-as-fd");
    reveal_strlit("--path");
    reveal_strlit("--perm");
    reveal_strlit("--authport");
    reveal_strlit("--auth-port");
    reveal_strlit("--auth-socket");
    reveal_strlit("--vncticket-endpoint");
    reveal_strlit("-h");
    reveal_strlit("--help");
    assert("--port-as-fd"@.len() == 12);
    assert("--path"@.len() == 6);
    assert("--perm"@.len() == 6);
    assert("--authport"@.len() == 10);
    assert("--auth-port"@.len() == 11);
    assert("--auth-socket"@.len() == 13);
    assert("--vncticket-endpoint"@.len() == 20);
    assert("-h"@.len() == 2);
    assert("--help"@.len() == 6);
    assert("--path"@[3] != "--perm"@[3]);
    assert("--help"@[2] != "--path"@[2] && "--help"@[2] != "--perm"@[2]);
    assert forall|i: nat, j: nat| 1 <= i <= 7 && 1 <= j <= 7 && i != j implies cli_key(i) != cli_key(j) by {
        if (i == 2 && j == 3) || (i == 3 && j == 2) {
            assert(cli_key(i)[3] != cli_key(j)[3]);
        } else {
            assert(cli_key(i).len() != cli_key(j).len());
        }
    }
}

/// After `n` steps, every later key keeps its groups, and the removed keys
/// are gone.
proof fn lemma_cli_rest(gs: Seq<ArgGroup>, n: nat)
    requires
        cli_groups(gs),
        n <= 7,
    ensures
        forall|j: nat| n < j <= 7 ==> {
            &&& count_key(cli_rest(gs, n), #[trigger] cli_key(j)) == count_key(gs, cli_key(j))
            &&& value_of(cli_rest(gs, n), cli_key(j)) == value_of(gs, cli_key(j))
            &&& only_as_key(cli_rest(gs, n), cli_key(j))
            &&& (no_flag(gs, cli_key(j)) ==> no_flag(cli_rest(gs, n), cli_key(j)))
            &&& (no_pair(gs, cli_key(j)) ==> no_pair(cli_rest(gs, n), cli_key(j)))
        },
        free_count(cli_rest(gs, n)) == 1,
        free_word(cli_rest(gs, n)) == free_word(gs),
        keys_within(cli_rest(gs, n), cli_keys().difference(Set::new(|k: Seq<char>| exists|i: nat| 1 <= i <= n && k == cli_key(i)))),
    decreases n,
{
    lemma_cli_keys_distinct();
    if n == 0 {
        assert(cli_keys().difference(Set::new(|k: Seq<char>| exists|i: nat| 1 <= i <= 0 && k == cli_key(i))) == cli_keys());
        assert forall|j: nat| 0 < j <= 7 implies only_as_key(gs, #[trigger] cli_key(j)) by {
            assert(cli_keys().contains(cli_key(j)));
        }
    } else {
        lemma_cli_rest(gs, (n - 1) as nat);
        let prev = cli_rest(gs, (n - 1) as nat);
        let k = cli_key(n);
        assert(cli_rest(gs, n) == without_key(prev, k));
        assert forall|j: nat| n < j <= 7 implies {
            &&& count_key(cli_rest(gs, n), #[trigger] cli_key(j)) == count_key(gs, cli_key(j))
            &&& value_of(cli_rest(gs, n), cli_key(j)) == value_of(gs, cli_key(j))
            &&& only_as_key(cli_rest(gs, n), cli_key(j))
            &&& (no_flag(gs, cli_key(j)) ==> no_flag(cli_rest(gs, n), cli_key(j)))
            &&& (no_pair(gs, cli_key(j)) ==> no_pair(cli_rest(gs, n), cli_key(j)))
        } by {
            lemma_keep(prev, k, cli_key(j));
        }
        lemma_without_keeps(prev, k, k + seq!['x']);
        assert((k + seq!['x']).len() != k.len());
        let before = cli_keys().difference(Set::new(|k2: Seq<char>| exists|i: nat| 1 <= i <= n - 1 && k2 == cli_key(i)));
        let after = cli_keys().difference(Set::new(|k2: Seq<char>| exists|i: nat| 1 <= i <= n && k2 == cli_key(i)));
        lemma_without_keys_within(prev, before, k);
        assert(before.remove(k) =~= after) by {
            assert forall|k2: Seq<char>| #[trigger] after.contains(k2) implies before.remove(k).contains(k2) by {
                if k2 == k {
                    assert(1 <= n <= n && k2 == cli_key(n));
                }
            }
            assert forall|k2: Seq<char>| #[trigger] before.remove(k).contains(k2) implies after.contains(k2) by {
                if exists|i: nat| 1 <= i <= n && k2 == cli_key(i) {
                    let i = choose|i: nat| 1 <= i <= n && k2 == cli_key(i);
                    if i < n {
                        assert(exists|i2: nat| 1 <= i2 <= n - 1 && k2 == cli_key(i2));
                    }
                }
            }
        }
    }
}

/// Step `n` of the options reader takes an option with its value.
proof fn lemma_cli_value_step(gs: Seq<ArgGroup>, n: nat)
    requires
        cli_groups(gs),
        2 <= n <= 6,
    ensures
        lookup_value(arg_words(cli_rest(gs, (n - 1) as nat)), cli_key(n)) == match value_of(gs, cli_key(n)) {
            Some(v) => ValueLookup::Found(v, arg_words(cli_rest(gs, n))),
            None => ValueLookup::Missing,
        },
        value_of(gs, cli_key(n)) is None ==> cli_rest(gs, n) == cli_rest(gs, (n - 1) as nat),
{
    lemma_cli_keys_distinct();
    let prev = cli_rest(gs, (n - 1) as nat);
    let k = cli_key(n);
    lemma_cli_rest(gs, (n - 1) as nat);
    assert(cli_keys().contains(k));
    assert(count_key(gs, k) <= 1 && only_as_key(gs, k));
    assert(no_flag(gs, k));
    assert(count_key(prev, k) == count_key(gs, k));
    assert(value_of(prev, k) == value_of(gs, k));
    assert(cli_rest(gs, n) == without_key(prev, k));
    lemma_lookup_groups(prev, k);
    lemma_value_present(prev, k);
    if count_key(prev, k) == 0 {
        lemma_without_absent(prev, k);
    }
}

/// Step `n` of the options reader takes a flag.
proof fn lemma_cli_flag_step(gs: Seq<ArgGroup>, n: nat)
    requires
        cli_groups(gs),
        n == 1 || n == 7,
    ensures
        take_flag_model(arg_words(cli_rest(gs, (n - 1) as nat)), cli_key(n)) == (
            count_key(gs, cli_key(n)) == 1,
            arg_words(cli_rest(gs, n)),
        ),
{
    lemma_cli_keys_distinct();
    let prev = cli_rest(gs, (n - 1) as nat);
    let k = cli_key(n);
    lemma_cli_rest(gs, (n - 1) as nat);
    assert(cli_keys().contains(k));
    assert(count_key(gs, k) <= 1 && only_as_key(gs, k));
    assert(no_pair(gs, k));
    assert(count_key(prev, k) == count_key(gs, k));
    assert(cli_rest(gs, n) == without_key(prev, k));
    lemma_flag_groups(prev, k);
}

/// After all steps, the free word is left alone.
proof fn lemma_cli_last(gs: Seq<ArgGroup>)
    requires
        cli_groups(gs),
    ensures
        arg_words(cli_rest(gs, 7)) == seq![free_word(gs)],
        !wants_help(arg_words(gs)),
{
    lemma_cli_keys_distinct();
    lemma_cli_rest(gs, 7);
    let taken = Set::new(|k: Seq<char>| exists|i: nat| 1 <= i <= 7 && k == cli_key(i));
    assert(cli_keys().difference(taken) =~= Set::<Seq<char>>::empty()) by {
        assert forall|k: Seq<char>| cli_keys().contains(k) implies taken.contains(k) by {
            if k == "--port-as-fd"@ { assert(k == cli_key(1)); }
            else if k == "--path"@ { assert(k == cli_key(2)); }
            else if k == "--perm"@ { assert(k == cli_key(3)); }
            else if k == "--authport"@ { assert(k == cli_key(4)); }
            else if k == "--auth-port"@ { assert(k == cli_key(5)); }
            else if k == "--auth-socket"@ { assert(k == cli_key(6)); }
            else { assert(k == cli_key(7)); }
        }
    }
    lemma_no_keys_all_free(cli_rest(gs, 7), cli_keys().difference(taken));
    lemma_single_free(cli_rest(gs, 7));
    lemma_not_a_key(gs, cli_keys(), "-h"@);
    lemma_not_a_key(gs, cli_keys(), "--help"@);
    lemma_absent_word(gs, "-h"@);
    lemma_absent_word(gs, "--help"@);
}

/// Law of the options reader: for options in any order, the result depends
/// only on which options are given with which values. `--path` is required;
/// `--perm` is optional; the daemon address follows `auth_address_choice`;
/// `--vncticket-endpoint` sets the ticket endpoint; the listen port is the
/// free word (a descriptor with `--port-as-fd`).
pub proof fn lemma_cli_any_order(gs: Seq<ArgGroup>, command: Seq<Seq<u8>>)
    requires
        cli_groups(gs),
    ensures
        cli_text_model(arg_words(gs), Some(command)) == cli_groups_outcome(gs, command),
{
    lemma_cli_flag_step(gs, 1);
    lemma_cli_value_step(gs, 2);
    lemma_cli_value_step(gs, 3);
    lemma_cli_value_step(gs, 4);
    lemma_cli_value_step(gs, 5);
    lemma_cli_value_step(gs, 6);
    lemma_cli_flag_step(gs, 7);
    lemma_cli_last(gs);
    let a = |n: nat| arg_words(cli_rest(gs, n));
    assert(a(7).drop_first() == Seq::<Seq<char>>::empty());
    assert(required_value(a(1), cli_key(2), None) == match value_of(gs, cli_key(2)) {
        Some(v) => Ok((v, a(2))),
        None => Err(CliErrorView::Arguments(ArgsErrorView::MissingOption(cli_key(2)))),
    });
    assert(optional_value(a(2), cli_key(3), None) == Ok::<(Option<Seq<char>>, Seq<Seq<char>>), CliErrorView>((value_of(gs, cli_key(3)), a(3))));
    assert(optional_u16(a(3), cli_key(4), None) == match port_value(value_of(gs, cli_key(4))) {
        Err(e) => Err(e),
        Ok(p) => Ok((p, a(4))),
    });
    assert(optional_u16(a(4), cli_key(5), None) == match port_value(value_of(gs, cli_key(5))) {
        Err(e) => Err(e),
        Ok(p) => Ok((p, a(5))),
    });
    assert(optional_value(a(5), cli_key(6), None) == Ok::<(Option<Seq<char>>, Seq<Seq<char>>), CliErrorView>((value_of(gs, cli_key(6)), a(6))));
    assert(free_u64(a(7), None) == match text_number(free_word(gs), u64::MAX as nat) {
        Some(n) => Ok(((n as u64), Seq::<Seq<char>>::empty())),
        None => Err(CliErrorView::InvalidNumber(free_word(gs))),
    });
    assert forall|legacy: Option<u16>, port: Option<u16>, socket: Option<Seq<char>>|
        #[trigger] auth_address_choice(legacy, port, socket) == daemon_address(if port is Some { port } else { legacy }, socket) by {
    }
}

/// Law of the options reader on the daemon address: with options in any
/// order, a run uses the port of `--auth-port`, else that of `--authport`,
/// else the socket of `--auth-socket`, else port 85.
pub proof fn lemma_cli_auth_address(gs: Seq<ArgGroup>, command: Seq<Seq<u8>>)
    requires
        cli_groups(gs),
        cli_text_model(arg_words(gs), Some(command)) matches Ok(InvocationView::Run(_)),
    ensures
        ({
            let o = cli_text_model(arg_words(gs), Some(command))->Ok_0->Run_0;
            o.api_daemon_address == if value_of(gs, "--auth-port"@) is Some {
                DaemonAddressView::Port(port_value(value_of(gs, "--auth-port"@))->Ok_0->Some_0)
            } else if value_of(gs, "--authport"@) is Some {
                DaemonAddressView::Port(port_value(value_of(gs, "--authport"@))->Ok_0->Some_0)
            } else if value_of(gs, "--auth-socket"@) is Some {
                DaemonAddressView::UnixSocket(value_of(gs, "--auth-socket"@)->Some_0)
            } else {
                DaemonAddressView::Port(DEFAULT_AUTH_PORT)
            }
        }),
{
    lemma_cli_any_order(gs, command);
}

/// Law of the options reader on the other fields: with options in any
/// order, a run has the value of `--path` as its path, the value of
/// `--perm` as its permission if given, and the ticket endpoint set exactly
/// when `--vncticket-endpoint` is given; without `--path` the command line is
/// refused.
pub proof fn lemma_cli_path_perm_endpoint(gs: Seq<ArgGroup>, command: Seq<Seq<u8>>)
    requires
        cli_groups(gs),
    ensures
        value_of(gs, "--path"@) is None ==> cli_text_model(arg_words(gs), Some(command)) is Err,
        cli_text_model(arg_words(gs), Some(command)) matches Ok(InvocationView::Run(o)) ==> {
            &&& Some(o.acl_path) == value_of(gs, "--path"@)
            &&& o.acl_permission == value_of(gs, "--perm"@)
            &&& o.vncticket_endpoint == (count_key(gs, "--vncticket-endpoint"@) == 1)
        },
{
    lemma_cli_any_order(gs, command);
}


/// Law of both readers: a run's terminal command is everything after the
/// first `--`, unchanged.
pub proof fn lemma_command_verbatim(args: Seq<Seq<u8>>)
    ensures
        cli_model(args) matches Ok(InvocationView::Run(o)) ==> split_command(args).1 == Some(o.terminal_command),
        proxy_args_model(args) matches Ok(ProxyInvocationView::Run(o)) ==> split_command(args).1 == Some(o.terminal_command),
{
}

/// Law of the options reader: with the same options in front of the first
/// `--`, any terminal commands give the same outcome but for the command.
pub proof fn lemma_cli_options_decide(a: Seq<Seq<u8>>, b: Seq<Seq<u8>>)
    requires
        split_command(a).0 == split_command(b).0,
        split_command(a).1 is Some,
        split_command(b).1 is Some,
    ensures
        cli_model(b) == match cli_model(a) {
            Ok(InvocationView::Run(o)) => Ok(InvocationView::Run(OptionsView { terminal_command: split_command(b).1->Some_0, ..o })),
            r => r,
        },
{
}

/// Law of the options reader: a run listens on a descriptor exactly when
/// `--port-as-fd` is among the options in front of the first `--`.
pub proof fn lemma_cli_port_as_fd(args: Seq<Seq<u8>>)
    ensures
        cli_model(args) matches Ok(InvocationView::Run(o)) ==> (o.listen_port is Fd <==> {
            let raw = split_command(args).0;
            marked_texts(raw, stand_in(raw)).contains("--port-as-fd"@)
        }),
{
    let raw = split_command(args).0;
    lemma_first_index(marked_texts(raw, stand_in(raw)), "--port-as-fd"@);
}

/// The laws for groups of options hold of the readers' command lines: a
/// command line whose options in front of the first `--` are all text and
/// spell `gs` gives the outcome for `gs`.
pub proof fn lemma_groups_command_line(args: Seq<Seq<u8>>, gs: Seq<ArgGroup>)
    requires
        all_text(split_command(args).0),
        marked_texts(split_command(args).0, stand_in(split_command(args).0)) == arg_words(gs),
        split_command(args).1 is Some,
    ensures
        cli_groups(gs) ==> cli_model(args) == cli_groups_outcome(gs, split_command(args).1->Some_0),
        proxy_groups(gs) ==> proxy_args_model(args) == proxy_groups_outcome(gs, split_command(args).1->Some_0),
{
    if cli_groups(gs) {
        lemma_cli_any_order(gs, split_command(args).1->Some_0);
    }
    if proxy_groups(gs) {
        lemma_proxy_any_order(gs, split_command(args).1->Some_0);
    }
}

} // verus!

//! Hosts, and the short list of top-level labels that sets some of them apart.
use vstd::prelude::*;
use crate::lookup::Whois;
use crate::resolve::{reply_resolution, LookupFailure};
use crate::text::to_chars;

verus! {

/// The top-level labels of the hosts that are not free.
pub const NOT_FREE: [&'static str; 3] = ["ua", "top", "org"];

/// `label` is one of [`NOT_FREE`], letter for letter.
pub open spec fn excluded_label(label: Seq<char>) -> bool {
    exists|i: int| 0 <= i < 3 && label == (#[trigger] NOT_FREE[i])@
}

/// The index of the last full stop of `host`.
pub open spec fn last_stop(host: Seq<char>) -> Option<int>
    decreases host.len(),
{
    if host.len() == 0 {
        None
    } else if host.last() == '.' {
        Some(host.len() - 1)
    } else {
        last_stop(host.drop_last())
    }
}

/// What follows the last full stop of `host`; none where it has no full stop.
pub open spec fn top_level_label(host: Seq<char>) -> Option<Seq<char>> {
    match last_stop(host) {
        Some(at) => Some(host.skip(at + 1)),
        None => None,
    }
}

/// A host is free unless its top-level label is one of [`NOT_FREE`]. One
/// without a full stop is free.
pub open spec fn is_free(host: Seq<char>) -> bool {
    match top_level_label(host) {
        Some(label) => !excluded_label(label),
        None => true,
    }
}

/// The labels of the list, letter by letter.
pub proof fn lemma_excluded_labels(label: Seq<char>)
    ensures
        excluded_label(label) <==> (label == seq!['u', 'a'] || label == seq!['t', 'o', 'p']
            || label == seq!['o', 'r', 'g']),
{
    reveal_strlit("ua");
    reveal_strlit("top");
    reveal_strlit("org");
    assert(NOT_FREE[0]@ =~= seq!['u', 'a']);
    assert(NOT_FREE[1]@ =~= seq!['t', 'o', 'p']);
    assert(NOT_FREE[2]@ =~= seq!['o', 'r', 'g']);
}

/// A full stop with none after it is the last one.
pub proof fn lemma_last_stop_is(host: Seq<char>, at: int)
    requires
        0 <= at < host.len(),
        host[at] == '.',
        forall|j: int| at < j < host.len() ==> host[j] != '.',
    ensures
        last_stop(host) == Some(at),
    decreases host.len(),
{
    if at < host.len() - 1 {
        lemma_last_stop_is(host.drop_last(), at);
    }
}

/// A host without a full stop has no last one.
pub proof fn lemma_no_stop(host: Seq<char>)
    requires
        forall|j: int| 0 <= j < host.len() ==> host[j] != '.',
    ensures
        last_stop(host) is None,
    decreases host.len(),
{
    if host.len() > 0 {
        lemma_no_stop(host.drop_last());
    }
}

/// Only what follows the last full stop counts: a host that ends in a full
/// stop and a label is free exactly where the label is not on the list,
/// whatever stands before.
pub proof fn lemma_free_by_last_label(before: Seq<char>, label: Seq<char>)
    requires
        forall|j: int| 0 <= j < label.len() ==> label[j] != '.',
    ensures
        top_level_label(before + seq!['.'] + label) == Some(label),
        is_free(before + seq!['.'] + label) == !excluded_label(label),
{
    let host = before + seq!['.'] + label;
    lemma_last_stop_is(host, before.len() as int);
    assert(host.skip(before.len() as int + 1) == label);
}

/// A host without a full stop is free.
pub proof fn lemma_free_without_stop(host: Seq<char>)
    requires
        forall|j: int| 0 <= j < host.len() ==> host[j] != '.',
    ensures
        is_free(host),
{
    lemma_no_stop(host);
}

/// Whether the characters of `chars` from `from` on are those of `other`.
fn ends_with_exactly(chars: &Vec<char>, from: usize, other: &Vec<char>) -> (r: bool)
    requires
        from <= chars.len(),
    ensures
        r == (chars@.skip(from as int) == other@),
{
    let ghost label = chars@.skip(from as int);
    if chars.len() - from != other.len() {
        return false;
    }
    let mut k: usize = 0;
    while k < other.len()
        invariant
            from <= chars.len(),
            chars.len() - from == other.len(),
            label == chars@.skip(from as int),
            k <= other.len(),
            forall|j: int| 0 <= j < k ==> label[j] == other@[j],
        decreases other.len() - k,
    {
        if chars[from + k] != other[k] {
            assert(label[k as int] != other@[k as int]);
            return false;
        }
        k += 1;
    }
    assert(label =~= other@);
    true
}

/// Whether the characters of `chars` from `from` on are a label of the list.
fn label_is_excluded(chars: &Vec<char>, from: usize) -> (r: bool)
    requires
        from <= chars.len(),
    ensures
        r == excluded_label(chars@.skip(from as int)),
{
    let mut i: usize = 0;
    while i < 3
        invariant
            from <= chars.len(),
            i <= 3,
            forall|k: int| 0 <= k < i ==> chars@.skip(from as int) != (#[trigger] NOT_FREE[k])@,
        decreases 3 - i,
    {
        let entry = to_chars(NOT_FREE[i]);
        if ends_with_exactly(chars, from, &entry) {
            return true;
        }
        i += 1;
    }
    false
}

/// Whether `host` is free.
pub fn classify(host: &str) -> (free: bool)
    ensures
        free == is_free(host@),
{
    let chars = to_chars(host);
    let n = chars.len();
    let mut i: usize = n;
    while i > 0 && chars[i - 1] != '.'
        invariant
            i <= n,
            n == chars.len(),
            forall|j: int| i <= j < n ==> chars@[j] != '.',
        decreases i,
    {
        i -= 1;
    }
    if i == 0 {
        proof {
            lemma_no_stop(chars@);
        }
        true
    } else {
        proof {
            lemma_last_stop_is(chars@, i - 1);
        }
        !label_is_excluded(&chars, i)
    }
}

/// A host with the mark that tells whether it is free. The mark is set when
/// the domain is made, and neither it nor the host changes afterwards.
#[derive(Debug)]
pub struct Domain {
    free: bool,
    host: String,
}

impl View for Domain {
    type V = Seq<char>;

    /// The characters of the host.
    closed spec fn view(&self) -> Seq<char> {
        self.host@
    }
}

impl Domain {
    /// The mark is the one that the host calls for.
    #[verifier::type_invariant]
    spec fn marked_by_host(self) -> bool {
        self.free == is_free(self.host@)
    }

    /// The domain of `host`, marked free or not by its top-level label.
    pub fn new(host: &str) -> (domain: Domain)
        ensures
            domain@ == host@,
    {
        let free = classify(host);
        Domain { free, host: host.to_owned() }
    }

    /// The host.
    pub fn host(&self) -> (r: &str)
        ensures
            r@ == self@,
    {
        self.host.as_str()
    }

    /// Whether the domain is free.
    pub fn free(&self) -> (r: bool)
        ensures
            r == is_free(self@),
    {
        proof {
            use_type_invariant(self);
        }
        self.free
    }

    /// What the transport's `reply` to a lookup of this domain comes to. A
    /// free domain goes by the first service of `whois`, any other by the
    /// second.
    pub fn expire(&self, whois: &Whois, reply: Result<String, String>) -> (r: Result<
        u64,
        LookupFailure,
    >)
        ensures
            r == (if is_free(self@) {
                whois.as93_resolution(reply)
            } else {
                whois.whoisjson_resolution(reply)
            }),
            r == reply_resolution(reply),
    {
        if self.free() {
            whois.expire_as93(reply)
        } else {
            whois.expire_whoisjson(reply)
        }
    }
}

} // verus!

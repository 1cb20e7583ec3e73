//! Resource identifiers of the shape `chronicle:<kind>:<name>[:<uuid>]`.
use vstd::prelude::*;
use vstd::string::*;

verus! {

/// Index of the first `:` in `s` at or after `from`, or `s.len()` when there is none.
pub open spec fn next_colon(s: Seq<char>, from: nat) -> nat
    decreases s.len() - from,
{
    if from >= s.len() {
        s.len()
    } else if s[from as int] == ':' {
        from
    } else {
        next_colon(s, from + 1)
    }
}

/// Where the `k`-th `:`-separated segment of `s` starts; past `s.len()` when `s` has
/// fewer than `k` colons.
pub open spec fn segment_start(s: Seq<char>, k: nat) -> nat
    decreases k,
{
    if k == 0 {
        0
    } else {
        next_colon(s, segment_start(s, (k - 1) as nat)) + 1
    }
}

/// The `k`-th `:`-separated segment of `s`, empty when there is no such segment.
pub open spec fn segment(s: Seq<char>, k: nat) -> Seq<char> {
    let start = segment_start(s, k);
    if start <= s.len() {
        s.subrange(start as int, next_colon(s, start) as int)
    } else {
        Seq::empty()
    }
}

/// The identifier of a resource of kind `kind` named `name`.
pub open spec fn iri_of(kind: Seq<char>, name: Seq<char>) -> Seq<char> {
    "chronicle:"@ + kind + ":"@ + name
}

proof fn lemma_next_colon_skip(s: Seq<char>, from: nat, to: nat)
    requires
        from <= to <= s.len(),
        forall|j: int| from <= j < to ==> s[j] != ':',
    ensures
        next_colon(s, from) == next_colon(s, to),
    decreases to - from,
{
    if from < to {
        lemma_next_colon_skip(s, from + 1, to);
    }
}

proof fn lemma_next_colon_bounds(s: Seq<char>, from: nat)
    ensures
        from <= s.len() ==> from <= next_colon(s, from) <= s.len(),
        from > s.len() ==> next_colon(s, from) == s.len(),
        next_colon(s, from) < s.len() ==> s[next_colon(s, from) as int] == ':',
    decreases s.len() - from,
{
    if from < s.len() && s[from as int] != ':' {
        lemma_next_colon_skip(s, from, from + 1);
        lemma_next_colon_bounds(s, from + 1);
    }
}

fn find_colon(s: &str, from: usize) -> (r: usize)
    requires
        from <= s@.len(),
    ensures
        r == next_colon(s@, from as nat),
{
    let n = s.unicode_len();
    let mut i: usize = from;
    while i < n
        invariant
            from <= i <= n,
            n == s@.len(),
            next_colon(s@, from as nat) == next_colon(s@, i as nat),
        decreases n - i,
    {
        if s.get_char(i) == ':' {
            return i;
        }
        proof {
            lemma_next_colon_skip(s@, i as nat, (i + 1) as nat);
        }
        i = i + 1;
    }
    i
}

/// The `k`-th `:`-separated segment of `s`; empty when `s` has fewer than `k` colons.
pub fn segment_of(s: &str, k: usize) -> (r: &str)
    ensures
        r@ == segment(s@, k as nat),
{
    let n = s.unicode_len();
    let mut start: usize = 0;
    let mut i: usize = 0;
    while i < k
        invariant
            i <= k,
            n == s@.len(),
            start <= n,
            start == segment_start(s@, i as nat),
        decreases k - i,
    {
        let c = find_colon(s, start);
        proof {
            lemma_next_colon_bounds(s@, start as nat);
        }
        if c == n {
            proof {
                lemma_segments_run_out(s@, (i + 1) as nat, k as nat);
                reveal_strlit("");
            }
            return "";
        }
        start = c + 1;
        i = i + 1;
    }
    let end = find_colon(s, start);
    proof {
        lemma_next_colon_bounds(s@, start as nat);
    }
    s.substring_char(start, end)
}

proof fn lemma_segments_run_out(s: Seq<char>, j: nat, k: nat)
    requires
        j <= k,
        segment_start(s, j) == s.len() + 1,
    ensures
        segment(s, k) == Seq::<char>::empty(),
    decreases k - j,
{
    if j < k {
        lemma_next_colon_bounds(s, segment_start(s, j));
        lemma_segments_run_out(s, j + 1, k);
    }
}

/// Whether `s` holds no `:`.
pub open spec fn colon_free(s: Seq<char>) -> bool {
    forall|i: int| 0 <= i < s.len() ==> s[i] != ':'
}

/// `id` is the identifier of kind `kind` whose name, its third segment, holds no colon.
pub open spec fn canonical(kind: Seq<char>, id: Seq<char>) -> bool {
    colon_free(segment(id, 2)) && id == iri_of(kind, segment(id, 2))
}

/// The identifier of the namespace `name` with uuid text `uuid`.
pub open spec fn ns_iri(name: Seq<char>, uuid: Seq<char>) -> Seq<char> {
    iri_of("ns"@, name) + ":"@ + uuid
}

/// `ns` is a namespace identifier whose name and uuid, its third and fourth segments,
/// hold no colon.
pub open spec fn ns_canonical(ns: Seq<char>) -> bool {
    colon_free(segment(ns, 2)) && colon_free(segment(ns, 3)) && ns == ns_iri(segment(ns, 2), segment(ns, 3))
}

proof fn lemma_colon_at(s: Seq<char>, from: nat, p: nat)
    requires
        from <= p <= s.len(),
        forall|j: int| from <= j < p ==> s[j] != ':',
        p == s.len() || s[p as int] == ':',
    ensures
        next_colon(s, from) == p,
{
    lemma_next_colon_skip(s, from, p);
}

/// The name of an identifier built from a colon-free kind and name is that name.
pub proof fn lemma_iri_segment(kind: Seq<char>, name: Seq<char>)
    requires
        colon_free(kind),
        colon_free(name),
    ensures
        segment(iri_of(kind, name), 2) == name,
{
    reveal_strlit("chronicle:");
    reveal_strlit(":");
    let s = iri_of(kind, name);
    let b = 10 + kind.len();
    assert(s[9] == ':');
    lemma_colon_at(s, 0, 9);
    assert forall|j: int| 10 <= j < b implies s[j] != ':' by {
        assert(s[j] == kind[j - 10]);
    }
    assert(s[b as int] == ':');
    lemma_colon_at(s, 10, b);
    assert forall|j: int| b + 1 <= j < s.len() implies s[j] != ':' by {
        assert(s[j] == name[j - b - 1]);
    }
    lemma_colon_at(s, b + 1, s.len());
    reveal_with_fuel(segment_start, 5);
    assert(segment_start(s, 0) == 0);
    assert(next_colon(s, 0) == 9);
    assert(segment_start(s, 1) == 10);
    assert(segment_start(s, 2) == b + 1);
    assert(s.subrange((b + 1) as int, s.len() as int) =~= name);
}

/// The name and uuid of a namespace identifier built from colon-free ones are those.
pub proof fn lemma_ns_segments(name: Seq<char>, uuid: Seq<char>)
    requires
        colon_free(name),
        colon_free(uuid),
    ensures
        segment(ns_iri(name, uuid), 2) == name,
        segment(ns_iri(name, uuid), 3) == uuid,
{
    reveal_strlit("chronicle:");
    reveal_strlit(":");
    reveal_strlit("ns");
    let s = ns_iri(name, uuid);
    let b = 13nat;
    let c = b + 1 + name.len();
    assert(s[9] == ':');
    lemma_colon_at(s, 0, 9);
    assert(s[12] == ':');
    assert(s[10] == 'n' && s[11] == 's');
    lemma_colon_at(s, 10, 12);
    assert forall|j: int| b <= j < c - 1 implies s[j] != ':' by {
        assert(s[j] == name[j - b]);
    }
    assert(s[c - 1] == ':');
    lemma_colon_at(s, b, (c - 1) as nat);
    assert forall|j: int| c <= j < s.len() implies s[j] != ':' by {
        assert(s[j] == uuid[j - c]);
    }
    lemma_colon_at(s, c, s.len());
    reveal_with_fuel(segment_start, 5);
    assert(segment_start(s, 0) == 0);
    assert(next_colon(s, 0) == 9);
    assert(segment_start(s, 1) == 10);
    assert(segment_start(s, 2) == b);
    assert(segment_start(s, 3) == c);
    assert(s.subrange(b as int, c - 1) =~= name);
    assert(s.subrange(c as int, s.len() as int) =~= uuid);
}

/// Whether `s` holds no `:`.
pub fn has_no_colon(s: &str) -> (r: bool)
    ensures
        r == colon_free(s@),
{
    let n = s.unicode_len();
    let mut i: usize = 0;
    while i < n
        invariant
            n == s@.len(),
            i <= n,
            forall|j: int| 0 <= j < i ==> s@[j] != ':',
        decreases n - i,
    {
        if s.get_char(i) == ':' {
            return false;
        }
        i = i + 1;
    }
    true
}

/// Builds `chronicle:<kind>:<name>`.
fn make_iri(kind: &str, name: &str) -> (r: String)
    ensures
        r@ == iri_of(kind@, name@),
{
    let mut s = String::from_str("chronicle:");
    s.append(kind);
    s.append(":");
    s.append(name);
    s
}

/// The hyphenated lowercase text of the uuid whose 128 bits are `u`.
pub uninterp spec fn uuid_text(u: u128) -> Seq<char>;

/// Relies on uuid::Uuid::from_u128 and its hyphenated form: 36 lowercase characters.
#[verifier::external_body]
fn hyphenated_uuid(u: u128) -> (r: String)
    ensures
        r@ == uuid_text(u),
        r@.len() == 36,
{
    uuid::Uuid::from_u128(u).hyphenated().to_string()
}

/// The identifier of a namespace: `chronicle:ns:<name>:<uuid>`.
#[derive(PartialEq, Eq, Hash, Debug, Clone)]
pub struct NamespaceId(pub String);

/// The identifier of an agent: `chronicle:agent:<name>`.
#[derive(PartialEq, Eq, Hash, Debug, Clone)]
pub struct AgentId(pub String);

/// The identifier of an activity: `chronicle:activity:<name>`.
#[derive(PartialEq, Eq, Hash, Debug, Clone)]
pub struct ActivityId(pub String);

/// The identifier of an entity: `chronicle:entity:<name>`.
#[derive(PartialEq, Eq, Hash, Debug, Clone)]
pub struct EntityId(pub String);

impl View for NamespaceId {
    type V = Seq<char>;

    open spec fn view(&self) -> Seq<char> {
        self.0@
    }
}

impl View for AgentId {
    type V = Seq<char>;

    open spec fn view(&self) -> Seq<char> {
        self.0@
    }
}

impl View for ActivityId {
    type V = Seq<char>;

    open spec fn view(&self) -> Seq<char> {
        self.0@
    }
}

impl View for EntityId {
    type V = Seq<char>;

    open spec fn view(&self) -> Seq<char> {
        self.0@
    }
}

impl NamespaceId {
    /// Wraps an identifier given as text.
    pub fn new(s: &str) -> (r: NamespaceId)
        ensures
            r@ == s@,
    {
        NamespaceId(s.to_owned())
    }

    /// The identifier of the namespace `name` whose uuid reads `uuid`.
    pub fn from_name(name: &str, uuid: &str) -> (r: NamespaceId)
        ensures
            r@ == iri_of("ns"@, name@) + ":"@ + uuid@,
    {
        let mut s = make_iri("ns", name);
        s.append(":");
        s.append(uuid);
        NamespaceId(s)
    }

    /// The identifier of the namespace `name` whose uuid is `uuid`.
    pub fn from_uuid(name: &str, uuid: u128) -> (r: NamespaceId)
        ensures
            r@ == iri_of("ns"@, name@) + ":"@ + uuid_text(uuid),
    {
        let text = hyphenated_uuid(uuid);
        NamespaceId::from_name(name, text.as_str())
    }

    /// The name and the uuid text of a namespace identifier.
    pub fn decompose(&self) -> (r: (&str, &str))
        ensures
            r.0@ == segment(self@, 2),
            r.1@ == segment(self@, 3),
    {
        (segment_of(self.0.as_str(), 2), segment_of(self.0.as_str(), 3))
    }

    pub fn as_str(&self) -> (r: &str)
        ensures
            r@ == self@,
    {
        self.0.as_str()
    }

    pub fn duplicate(&self) -> (r: NamespaceId)
        ensures
            r@ == self@,
    {
        NamespaceId(self.0.clone())
    }
}

impl AgentId {
    /// Wraps an identifier given as text.
    pub fn new(s: &str) -> (r: AgentId)
        ensures
            r@ == s@,
    {
        AgentId(s.to_owned())
    }

    /// The identifier of the agent `name`.
    pub fn from_name(name: &str) -> (r: AgentId)
        ensures
            r@ == iri_of("agent"@, name@),
    {
        AgentId(make_iri("agent", name))
    }

    /// The agent name held in the identifier.
    pub fn decompose(&self) -> (r: &str)
        ensures
            r@ == segment(self@, 2),
    {
        segment_of(self.0.as_str(), 2)
    }

    pub fn as_str(&self) -> (r: &str)
        ensures
            r@ == self@,
    {
        self.0.as_str()
    }

    pub fn duplicate(&self) -> (r: AgentId)
        ensures
            r@ == self@,
    {
        AgentId(self.0.clone())
    }
}

impl ActivityId {
    /// Wraps an identifier given as text.
    pub fn new(s: &str) -> (r: ActivityId)
        ensures
            r@ == s@,
    {
        ActivityId(s.to_owned())
    }

    /// The identifier of the activity `name`.
    pub fn from_name(name: &str) -> (r: ActivityId)
        ensures
            r@ == iri_of("activity"@, name@),
    {
        ActivityId(make_iri("activity", name))
    }

    /// The activity name held in the identifier.
    pub fn decompose(&self) -> (r: &str)
        ensures
            r@ == segment(self@, 2),
    {
        segment_of(self.0.as_str(), 2)
    }

    pub fn as_str(&self) -> (r: &str)
        ensures
            r@ == self@,
    {
        self.0.as_str()
    }

    pub fn duplicate(&self) -> (r: ActivityId)
        ensures
            r@ == self@,
    {
        ActivityId(self.0.clone())
    }
}

impl EntityId {
    /// Wraps an identifier given as text.
    pub fn new(s: &str) -> (r: EntityId)
        ensures
            r@ == s@,
    {
        EntityId(s.to_owned())
    }

    /// The identifier of the entity `name`.
    pub fn from_name(name: &str) -> (r: EntityId)
        ensures
            r@ == iri_of("entity"@, name@),
    {
        EntityId(make_iri("entity", name))
    }

    /// The entity name held in the identifier.
    pub fn decompose(&self) -> (r: &str)
        ensures
            r@ == segment(self@, 2),
    {
        segment_of(self.0.as_str(), 2)
    }

    pub fn as_str(&self) -> (r: &str)
        ensures
            r@ == self@,
    {
        self.0.as_str()
    }

    pub fn duplicate(&self) -> (r: EntityId)
        ensures
            r@ == self@,
    {
        EntityId(self.0.clone())
    }
}

} // verus!

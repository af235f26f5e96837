//! Method calls: the call envelope with its flags, and the decisions taken while reading one off
//! the wire.
//!
//! A call arrives as a JSON object holding the method's name (`method`), its arguments
//! (`parameters`) and optional boolean flags (`oneway`, `more`, `upgrade`). The flags are picked
//! out as the object streams by; the rest goes to the method type. A no-argument method may come
//! with its parameters empty, `null` or absent; when the streamed method fails on such parameters,
//! it is read once more from a stand-in object holding the method's name and empty parameters.
use vstd::prelude::*;

verus! {

/// A flag of a method call.
#[derive(Debug, Clone, Copy, PartialEq, Eq)]
pub enum Flag {
    /// The caller wants no reply.
    Oneway,
    /// The caller accepts several replies.
    More,
    /// The caller asks to switch the connection to another protocol.
    Upgrade,
}

/// The name of a flag on the wire.
pub open spec fn flag_name(f: Flag) -> Seq<char> {
    match f {
        Flag::Oneway => "oneway"@,
        Flag::More => "more"@,
        Flag::Upgrade => "upgrade"@,
    }
}

impl Flag {
    /// The name of the flag on the wire.
    pub fn name(&self) -> (r: &'static str)
        ensures
            r@ == flag_name(*self),
    {
        match self {
            Flag::Oneway => "oneway",
            Flag::More => "more",
            Flag::Upgrade => "upgrade",
        }
    }
}

/// A method call.
#[derive(Debug, Clone, PartialEq, Eq)]
pub struct Call<M> {
    pub method: M,
    pub oneway: bool,
    pub more: bool,
    pub upgrade: bool,
}

/// The flags of a call that are set, in wire order: `oneway`, `more`, `upgrade`. Only these are
/// written out; an unset flag is left off.
pub open spec fn set_flags(oneway: bool, more: bool, upgrade: bool) -> Seq<Flag> {
    (if oneway { seq![Flag::Oneway] } else { Seq::empty() })
        + (if more { seq![Flag::More] } else { Seq::empty() })
        + (if upgrade { seq![Flag::Upgrade] } else { Seq::empty() })
}

impl<M> Call<M> {
    /// A call of `method`, with no flag set.
    pub fn new(method: M) -> (r: Self)
        ensures
            r.method == method,
            !r.oneway && !r.more && !r.upgrade,
    {
        Call { method, oneway: false, more: false, upgrade: false }
    }

    /// The call with `oneway` set to `value`.
    pub fn set_oneway(self, value: bool) -> (r: Self)
        ensures
            r == (Call { oneway: value, ..self }),
    {
        Call { oneway: value, ..self }
    }

    /// The call with `more` set to `value`.
    pub fn set_more(self, value: bool) -> (r: Self)
        ensures
            r == (Call { more: value, ..self }),
    {
        Call { more: value, ..self }
    }

    /// The call with `upgrade` set to `value`.
    pub fn set_upgrade(self, value: bool) -> (r: Self)
        ensures
            r == (Call { upgrade: value, ..self }),
    {
        Call { upgrade: value, ..self }
    }

    /// The method and its parameters.
    pub fn method(&self) -> (r: &M)
        ensures
            *r == self.method,
    {
        &self.method
    }

    /// Whether the caller wants no reply.
    pub fn oneway(&self) -> (r: bool)
        ensures
            r == self.oneway,
    {
        self.oneway
    }

    /// Whether the caller accepts several replies.
    pub fn more(&self) -> (r: bool)
        ensures
            r == self.more,
    {
        self.more
    }

    /// Whether the caller asks to upgrade the connection.
    pub fn upgrade(&self) -> (r: bool)
        ensures
            r == self.upgrade,
    {
        self.upgrade
    }

    /// The flags to write out with the method, in order: those that are set.
    pub fn flags_to_write(&self) -> (r: Vec<Flag>)
        ensures
            r@ == set_flags(self.oneway, self.more, self.upgrade),
    {
        let mut out: Vec<Flag> = Vec::new();
        if self.oneway {
            out.push(Flag::Oneway);
        }
        if self.more {
            out.push(Flag::More);
        }
        if self.upgrade {
            out.push(Flag::Upgrade);
        }
        proof {
            assert(out@ =~= set_flags(self.oneway, self.more, self.upgrade));
        }
        out
    }
}

/// A flag written under its name is read back as that flag.
pub proof fn lemma_flag_name_read_back(f: Flag)
    ensures
        key_kind(flag_name(f)) == EnvelopeKey::Flag(f),
{
    reveal_strlit("oneway");
    reveal_strlit("more");
    reveal_strlit("upgrade");
    reveal_strlit("method");
    reveal_strlit("parameters");
    assert("oneway"@.len() == 6 && "more"@.len() == 4 && "upgrade"@.len() == 7);
}

/// The flags as (oneway, more, upgrade) after each of `fs` was read as set, starting from `init`.
pub open spec fn read_flags(init: (Option<bool>, Option<bool>, Option<bool>), fs: Seq<Flag>) -> (Option<bool>, Option<bool>, Option<bool>)
    decreases fs.len(),
{
    if fs.len() == 0 {
        init
    } else {
        let before = read_flags(init, fs.drop_last());
        match fs.last() {
            Flag::Oneway => (Some(true), before.1, before.2),
            Flag::More => (before.0, Some(true), before.2),
            Flag::Upgrade => (before.0, before.1, Some(true)),
        }
    }
}

/// The flags a call writes out, read back into a fresh envelope, give the call's flags again,
/// an absent flag reading as unset.
pub proof fn lemma_flags_round_trip(oneway: bool, more: bool, upgrade: bool)
    ensures
        ({
            let got = read_flags((None, None, None), set_flags(oneway, more, upgrade));
            &&& (got.0 == Some(true)) == oneway
            &&& (got.1 == Some(true)) == more
            &&& (got.2 == Some(true)) == upgrade
        }),
{
    let a: Seq<Flag> = if oneway { seq![Flag::Oneway] } else { Seq::empty() };
    let b: Seq<Flag> = if more { seq![Flag::More] } else { Seq::empty() };
    let c: Seq<Flag> = if upgrade { seq![Flag::Upgrade] } else { Seq::empty() };
    let init: (Option<bool>, Option<bool>, Option<bool>) = (None, None, None);
    assert(set_flags(oneway, more, upgrade) == a + b + c);
    lemma_read_flags_concat(init, a, b);
    lemma_read_flags_concat(init, a + b, c);
    lemma_read_flags_one(init, a);
    let ra = read_flags(init, a);
    lemma_read_flags_one(ra, b);
    let rab = read_flags(ra, b);
    lemma_read_flags_one(rab, c);
}

proof fn lemma_read_flags_one(init: (Option<bool>, Option<bool>, Option<bool>), a: Seq<Flag>)
    requires
        a.len() <= 1,
    ensures
        a.len() == 0 ==> read_flags(init, a) == init,
        a.len() == 1 ==> read_flags(init, a) == match a[0] {
            Flag::Oneway => (Some(true), init.1, init.2),
            Flag::More => (init.0, Some(true), init.2),
            Flag::Upgrade => (init.0, init.1, Some(true)),
        },
{
    if a.len() == 1 {
        assert(a.drop_last() =~= Seq::<Flag>::empty());
        assert(read_flags(init, a.drop_last()) == init);
    }
}

proof fn lemma_read_flags_concat(init: (Option<bool>, Option<bool>, Option<bool>), a: Seq<Flag>, b: Seq<Flag>)
    requires
        b.len() <= 1,
    ensures
        read_flags(init, a + b) == read_flags(read_flags(init, a), b),
{
    if b.len() == 0 {
        assert(a + b =~= a);
    } else {
        assert((a + b).drop_last() =~= a);
        assert((a + b).last() == b.last());
        assert(b.drop_last() =~= Seq::<Flag>::empty());
        assert(read_flags(read_flags(init, a), b.drop_last()) == read_flags(init, a));
    }
}

/// What a key of the call object is.
#[derive(Debug, Clone, Copy, PartialEq, Eq)]
pub enum EnvelopeKey {
    /// One of the flags, read here.
    Flag(Flag),
    /// The method's name, handed on to the method and kept.
    Method,
    /// The method's arguments, handed on to the method.
    Parameters,
    /// Anything else, handed on to the method.
    Other,
}

/// What `key` is, in a call object.
pub open spec fn key_kind(key: Seq<char>) -> EnvelopeKey {
    if key == "oneway"@ {
        EnvelopeKey::Flag(Flag::Oneway)
    } else if key == "more"@ {
        EnvelopeKey::Flag(Flag::More)
    } else if key == "upgrade"@ {
        EnvelopeKey::Flag(Flag::Upgrade)
    } else if key == "method"@ {
        EnvelopeKey::Method
    } else if key == "parameters"@ {
        EnvelopeKey::Parameters
    } else {
        EnvelopeKey::Other
    }
}

/// What to do once the streamed reading of the method has ended.
#[derive(Debug, PartialEq, Eq)]
pub enum Resolution {
    /// Keep what the stream gave: the method, or its error.
    Streamed,
    /// Read the method again from a stand-in object with this name and empty parameters.
    Fallback(String),
}

/// What was learnt of a call object while it streamed by.
#[derive(Debug)]
pub struct CallEnvelope {
    pub oneway: Option<bool>,
    pub more: Option<bool>,
    pub upgrade: Option<bool>,
    /// Empty or `null` parameters were handed on to the method as a unit.
    pub needs_retry: bool,
    /// The `parameters` key was seen.
    pub saw_parameters: bool,
    /// A flag's value was not a boolean, or the rest of the object could not be drained.
    pub flag_error: bool,
    /// The method's name, as it was read.
    pub method: Option<String>,
}

/// The flags an envelope holds, as (oneway, more, upgrade): a boolean once read, `None` before.
pub open spec fn flag_state(env: CallEnvelope) -> (Option<bool>, Option<bool>, Option<bool>) {
    (env.oneway, env.more, env.upgrade)
}

/// The flags after `value` was read for `flag`: a boolean replaces the flag's value, anything else
/// leaves the flags as they were.
pub open spec fn flag_update(
    st: (Option<bool>, Option<bool>, Option<bool>),
    flag: Flag,
    value: Option<bool>,
) -> (Option<bool>, Option<bool>, Option<bool>) {
    match value {
        None => st,
        Some(v) => match flag {
            Flag::Oneway => (Some(v), st.1, st.2),
            Flag::More => (st.0, Some(v), st.2),
            Flag::Upgrade => (st.0, st.1, Some(v)),
        },
    }
}

/// The flags after the keys of a call object were read in order, each with the boolean its value
/// held when the key is a flag's name: what `on_key` and `on_flag` do to them.
pub open spec fn flags_read(
    init: (Option<bool>, Option<bool>, Option<bool>),
    entries: Seq<(Seq<char>, Option<bool>)>,
) -> (Option<bool>, Option<bool>, Option<bool>)
    decreases entries.len(),
{
    if entries.len() == 0 {
        init
    } else {
        let before = flags_read(init, entries.drop_last());
        let (k, v) = entries.last();
        match key_kind(k) {
            EnvelopeKey::Flag(f) => flag_update(before, f, v),
            _ => before,
        }
    }
}

/// The component of a flag state that belongs to `f`.
pub open spec fn flag_of(st: (Option<bool>, Option<bool>, Option<bool>), f: Flag) -> Option<bool> {
    match f {
        Flag::Oneway => st.0,
        Flag::More => st.1,
        Flag::Upgrade => st.2,
    }
}

/// Each flag's name occurs at most once among the keys, and carries a boolean.
pub open spec fn well_flagged(entries: Seq<(Seq<char>, Option<bool>)>) -> bool {
    &&& forall|i: int, j: int|
        0 <= i < entries.len() && 0 <= j < entries.len() && i != j && #[trigger] key_kind(entries[i].0) is Flag
            ==> key_kind(entries[i].0) != #[trigger] key_kind(entries[j].0)
    &&& forall|i: int| 0 <= i < entries.len() && #[trigger] key_kind(entries[i].0) is Flag ==> entries[i].1 is Some
}

/// A call object's flags do not depend on the order of its keys nor on its other keys: each flag
/// is the boolean given under its name, and is unset when its name is absent.
pub proof fn lemma_flags_read(entries: Seq<(Seq<char>, Option<bool>)>, f: Flag)
    requires
        well_flagged(entries),
    ensures
        forall|b: bool| flag_of(flags_read((None, None, None), entries), f) == Some(b) <==> exists|i: int|
            0 <= i < entries.len() && #[trigger] key_kind(entries[i].0) == EnvelopeKey::Flag(f) && entries[i].1 == Some(b),
        flag_of(flags_read((None, None, None), entries), f) is None <==> forall|i: int|
            0 <= i < entries.len() ==> #[trigger] key_kind(entries[i].0) != EnvelopeKey::Flag(f),
    decreases entries.len(),
{
    if entries.len() > 0 {
        let d = entries.drop_last();
        assert(well_flagged(d)) by {
            assert forall|i: int, j: int|
                0 <= i < d.len() && 0 <= j < d.len() && i != j && #[trigger] key_kind(d[i].0) is Flag
                implies key_kind(d[i].0) != #[trigger] key_kind(d[j].0) by {
                assert(d[i] == entries[i] && d[j] == entries[j]);
            }
            assert forall|i: int| 0 <= i < d.len() && #[trigger] key_kind(d[i].0) is Flag implies d[i].1 is Some by {
                assert(d[i] == entries[i]);
            }
        }
        lemma_flags_read(d, f);
        let n = entries.len() - 1;
        let before = flags_read((None, None, None), d);
        let (k, v) = entries.last();
        if key_kind(k) == EnvelopeKey::Flag(f) {
            assert(key_kind(entries[n].0) is Flag);
            assert forall|i: int| 0 <= i < d.len() implies #[trigger] key_kind(d[i].0) != EnvelopeKey::Flag(f) by {
                assert(d[i] == entries[i]);
                assert(key_kind(entries[n].0) != key_kind(entries[i].0));
            }
            assert(v is Some);
            assert forall|b: bool| flag_of(flags_read((None, None, None), entries), f) == Some(b) <==> exists|i: int|
                0 <= i < entries.len() && #[trigger] key_kind(entries[i].0) == EnvelopeKey::Flag(f) && entries[i].1 == Some(b) by {
                if exists|i: int| 0 <= i < entries.len() && #[trigger] key_kind(entries[i].0) == EnvelopeKey::Flag(f) && entries[i].1 == Some(b) {
                    let i = choose|i: int| 0 <= i < entries.len() && #[trigger] key_kind(entries[i].0) == EnvelopeKey::Flag(f) && entries[i].1 == Some(b);
                    if i < n {
                        assert(key_kind(d[i].0) != EnvelopeKey::Flag(f));
                    }
                }
            }
        } else {
            assert forall|b: bool| flag_of(flags_read((None, None, None), entries), f) == Some(b) <==> exists|i: int|
                0 <= i < entries.len() && #[trigger] key_kind(entries[i].0) == EnvelopeKey::Flag(f) && entries[i].1 == Some(b) by {
                if exists|i: int| 0 <= i < entries.len() && #[trigger] key_kind(entries[i].0) == EnvelopeKey::Flag(f) && entries[i].1 == Some(b) {
                    let i = choose|i: int| 0 <= i < entries.len() && #[trigger] key_kind(entries[i].0) == EnvelopeKey::Flag(f) && entries[i].1 == Some(b);
                    assert(i < n);
                    assert(d[i] == entries[i]);
                }
                if exists|i: int| 0 <= i < d.len() && #[trigger] key_kind(d[i].0) == EnvelopeKey::Flag(f) && d[i].1 == Some(b) {
                    let i = choose|i: int| 0 <= i < d.len() && #[trigger] key_kind(d[i].0) == EnvelopeKey::Flag(f) && d[i].1 == Some(b);
                    assert(d[i] == entries[i]);
                }
            }
            assert((forall|i: int| 0 <= i < entries.len() ==> #[trigger] key_kind(entries[i].0) != EnvelopeKey::Flag(f))
                <==> (forall|i: int| 0 <= i < d.len() ==> #[trigger] key_kind(d[i].0) != EnvelopeKey::Flag(f))) by {
                if forall|i: int| 0 <= i < d.len() ==> #[trigger] key_kind(d[i].0) != EnvelopeKey::Flag(f) {
                    assert forall|i: int| 0 <= i < entries.len() implies #[trigger] key_kind(entries[i].0) != EnvelopeKey::Flag(f) by {
                        if i < n {
                            assert(d[i] == entries[i]);
                        }
                    }
                }
                if forall|i: int| 0 <= i < entries.len() ==> #[trigger] key_kind(entries[i].0) != EnvelopeKey::Flag(f) {
                    assert forall|i: int| 0 <= i < d.len() implies #[trigger] key_kind(d[i].0) != EnvelopeKey::Flag(f) by {
                        assert(d[i] == entries[i]);
                    }
                }
            }
        }
    }
}

/// What the envelope keeps of the method and the parameters after the keys of a call object were
/// read in order, each with the method name read when the key is `method`: that name (as
/// `on_method` keeps it) and whether a `parameters` key came (as `on_key` notes it).
pub open spec fn method_read(
    init: (Option<Seq<char>>, bool),
    entries: Seq<(Seq<char>, Option<Seq<char>>)>,
) -> (Option<Seq<char>>, bool)
    decreases entries.len(),
{
    if entries.len() == 0 {
        init
    } else {
        let before = method_read(init, entries.drop_last());
        let (k, v) = entries.last();
        match key_kind(k) {
            EnvelopeKey::Method => (if v is Some { v } else { before.0 }, before.1),
            EnvelopeKey::Parameters => (before.0, true),
            _ => before,
        }
    }
}

/// The `method` key occurs at most once, and carries the name read for it.
pub open spec fn well_methoded(entries: Seq<(Seq<char>, Option<Seq<char>>)>) -> bool {
    &&& forall|i: int, j: int|
        0 <= i < entries.len() && 0 <= j < entries.len() && i != j && #[trigger] key_kind(entries[i].0) == EnvelopeKey::Method
            ==> #[trigger] key_kind(entries[j].0) != EnvelopeKey::Method
    &&& forall|i: int| 0 <= i < entries.len() && #[trigger] key_kind(entries[i].0) == EnvelopeKey::Method ==> entries[i].1 is Some
}

proof fn lemma_well_methoded_prefix(entries: Seq<(Seq<char>, Option<Seq<char>>)>)
    requires
        well_methoded(entries),
        entries.len() > 0,
    ensures
        well_methoded(entries.drop_last()),
{
    let d = entries.drop_last();
    assert forall|i: int, j: int|
        0 <= i < d.len() && 0 <= j < d.len() && i != j && #[trigger] key_kind(d[i].0) == EnvelopeKey::Method
        implies #[trigger] key_kind(d[j].0) != EnvelopeKey::Method by {
        assert(d[i] == entries[i] && d[j] == entries[j]);
    }
    assert forall|i: int| 0 <= i < d.len() && #[trigger] key_kind(d[i].0) == EnvelopeKey::Method implies d[i].1 is Some by {
        assert(d[i] == entries[i]);
    }
}

proof fn lemma_method_read_name(entries: Seq<(Seq<char>, Option<Seq<char>>)>)
    requires
        well_methoded(entries),
    ensures
        forall|m: Seq<char>| method_read((None, false), entries).0 == Some(m) <==> exists|i: int|
            0 <= i < entries.len() && #[trigger] key_kind(entries[i].0) == EnvelopeKey::Method && entries[i].1 == Some(m),
        method_read((None, false), entries).0 is None <==> forall|i: int|
            0 <= i < entries.len() ==> #[trigger] key_kind(entries[i].0) != EnvelopeKey::Method,
    decreases entries.len(),
{
    if entries.len() > 0 {
        let d = entries.drop_last();
        let n = entries.len() - 1;
        lemma_well_methoded_prefix(entries);
        lemma_method_read_name(d);
        let (k, v) = entries.last();
        if key_kind(k) == EnvelopeKey::Method {
            assert(key_kind(entries[n].0) == EnvelopeKey::Method);
            assert forall|i: int| 0 <= i < d.len() implies #[trigger] key_kind(d[i].0) != EnvelopeKey::Method by {
                assert(d[i] == entries[i]);
            }
            assert(v is Some);
            assert forall|m: Seq<char>| method_read((None, false), entries).0 == Some(m) <==> exists|i: int|
                0 <= i < entries.len() && #[trigger] key_kind(entries[i].0) == EnvelopeKey::Method && entries[i].1 == Some(m) by {
                if exists|i: int| 0 <= i < entries.len() && #[trigger] key_kind(entries[i].0) == EnvelopeKey::Method && entries[i].1 == Some(m) {
                    let i = choose|i: int| 0 <= i < entries.len() && #[trigger] key_kind(entries[i].0) == EnvelopeKey::Method && entries[i].1 == Some(m);
                    if i < n {
                        assert(d[i] == entries[i]);
                    }
                }
            }
        } else {
            assert forall|m: Seq<char>| method_read((None, false), entries).0 == Some(m) <==> exists|i: int|
                0 <= i < entries.len() && #[trigger] key_kind(entries[i].0) == EnvelopeKey::Method && entries[i].1 == Some(m) by {
                if exists|i: int| 0 <= i < entries.len() && #[trigger] key_kind(entries[i].0) == EnvelopeKey::Method && entries[i].1 == Some(m) {
                    let i = choose|i: int| 0 <= i < entries.len() && #[trigger] key_kind(entries[i].0) == EnvelopeKey::Method && entries[i].1 == Some(m);
                    assert(i < n);
                    assert(d[i] == entries[i]);
                }
                if exists|i: int| 0 <= i < d.len() && #[trigger] key_kind(d[i].0) == EnvelopeKey::Method && d[i].1 == Some(m) {
                    let i = choose|i: int| 0 <= i < d.len() && #[trigger] key_kind(d[i].0) == EnvelopeKey::Method && d[i].1 == Some(m);
                    assert(d[i] == entries[i]);
                }
            }
            assert((forall|i: int| 0 <= i < entries.len() ==> #[trigger] key_kind(entries[i].0) != EnvelopeKey::Method)
                <==> (forall|i: int| 0 <= i < d.len() ==> #[trigger] key_kind(d[i].0) != EnvelopeKey::Method)) by {
                if forall|i: int| 0 <= i < d.len() ==> #[trigger] key_kind(d[i].0) != EnvelopeKey::Method {
                    assert forall|i: int| 0 <= i < entries.len() implies #[trigger] key_kind(entries[i].0) != EnvelopeKey::Method by {
                        if i < n {
                            assert(d[i] == entries[i]);
                        }
                    }
                }
                if forall|i: int| 0 <= i < entries.len() ==> #[trigger] key_kind(entries[i].0) != EnvelopeKey::Method {
                    assert forall|i: int| 0 <= i < d.len() implies #[trigger] key_kind(d[i].0) != EnvelopeKey::Method by {
                        assert(d[i] == entries[i]);
                    }
                }
            }
        }
    }
}

proof fn lemma_method_read_params(init: (Option<Seq<char>>, bool), entries: Seq<(Seq<char>, Option<Seq<char>>)>)
    requires
        !init.1,
    ensures
        method_read(init, entries).1 <==> exists|i: int|
            0 <= i < entries.len() && #[trigger] key_kind(entries[i].0) == EnvelopeKey::Parameters,
    decreases entries.len(),
{
    if entries.len() > 0 {
        let d = entries.drop_last();
        let n = entries.len() - 1;
        lemma_method_read_params(init, d);
        let (k, v) = entries.last();
        assert(entries[n] == entries.last());
        if exists|i: int| 0 <= i < entries.len() && #[trigger] key_kind(entries[i].0) == EnvelopeKey::Parameters {
            let i = choose|i: int| 0 <= i < entries.len() && #[trigger] key_kind(entries[i].0) == EnvelopeKey::Parameters;
            if i < n {
                assert(d[i] == entries[i]);
            }
        }
        if exists|i: int| 0 <= i < d.len() && #[trigger] key_kind(d[i].0) == EnvelopeKey::Parameters {
            let i = choose|i: int| 0 <= i < d.len() && #[trigger] key_kind(d[i].0) == EnvelopeKey::Parameters;
            assert(d[i] == entries[i]);
        }
    }
}

/// A call object's method and parameters, as the envelope keeps them, do not depend on the order
/// of its keys nor on its other keys: the method is the name given under `method`, none when the
/// key is absent, and the parameters were seen exactly when a `parameters` key is there.
pub proof fn lemma_method_read(entries: Seq<(Seq<char>, Option<Seq<char>>)>)
    requires
        well_methoded(entries),
    ensures
        forall|m: Seq<char>| method_read((None, false), entries).0 == Some(m) <==> exists|i: int|
            0 <= i < entries.len() && #[trigger] key_kind(entries[i].0) == EnvelopeKey::Method && entries[i].1 == Some(m),
        method_read((None, false), entries).0 is None <==> forall|i: int|
            0 <= i < entries.len() ==> #[trigger] key_kind(entries[i].0) != EnvelopeKey::Method,
        method_read((None, false), entries).1 <==> exists|i: int|
            0 <= i < entries.len() && #[trigger] key_kind(entries[i].0) == EnvelopeKey::Parameters,
{
    lemma_method_read_name(entries);
    lemma_method_read_params((None, false), entries);
}

/// Whether the method is read again from the stand-in object: only when the streamed reading
/// failed, no flag was malformed, and the parameters were empty, `null` or absent.
pub open spec fn use_fallback(env: CallEnvelope, streamed_ok: bool) -> bool {
    !streamed_ok && !env.flag_error && (env.needs_retry || !env.saw_parameters)
}

fn str_is(a: &str, b: &str) -> (r: bool)
    ensures
        r == (a@ == b@),
{
    crate::strings::str_eq(a, b)
}

impl CallEnvelope {
    /// Nothing learnt yet.
    pub fn new() -> (r: Self)
        ensures
            r.oneway is None && r.more is None && r.upgrade is None,
            !r.needs_retry && !r.saw_parameters && !r.flag_error,
            r.method is None,
    {
        CallEnvelope {
            oneway: None,
            more: None,
            upgrade: None,
            needs_retry: false,
            saw_parameters: false,
            flag_error: false,
            method: None,
        }
    }

    /// Takes note of a key of the call object and says what it is.
    pub fn on_key(&mut self, key: &str) -> (r: EnvelopeKey)
        ensures
            r == key_kind(key@),
            flag_state(*final(self)) == flag_state(*old(self)),
            final(self).saw_parameters == (old(self).saw_parameters || r == EnvelopeKey::Parameters),
            final(self).oneway == old(self).oneway,
            final(self).more == old(self).more,
            final(self).upgrade == old(self).upgrade,
            final(self).needs_retry == old(self).needs_retry,
            final(self).flag_error == old(self).flag_error,
            final(self).method == old(self).method,
    {
        proof {
            reveal_strlit("oneway");
            reveal_strlit("more");
            reveal_strlit("upgrade");
            reveal_strlit("method");
            reveal_strlit("parameters");
        }
        if str_is(key, "oneway") {
            EnvelopeKey::Flag(Flag::Oneway)
        } else if str_is(key, "more") {
            EnvelopeKey::Flag(Flag::More)
        } else if str_is(key, "upgrade") {
            EnvelopeKey::Flag(Flag::Upgrade)
        } else if str_is(key, "method") {
            EnvelopeKey::Method
        } else if str_is(key, "parameters") {
            self.saw_parameters = true;
            EnvelopeKey::Parameters
        } else {
            EnvelopeKey::Other
        }
    }

    /// Records the value read for a flag: the boolean, or `None` when the value was not one,
    /// which marks the envelope as malformed.
    pub fn on_flag(&mut self, flag: Flag, value: Option<bool>)
        ensures
            final(self).flag_error == (old(self).flag_error || value is None),
            flag_state(*final(self)) == flag_update(flag_state(*old(self)), flag, value),
            final(self).oneway == if flag == Flag::Oneway && value is Some { value } else { old(self).oneway },
            final(self).more == if flag == Flag::More && value is Some { value } else { old(self).more },
            final(self).upgrade == if flag == Flag::Upgrade && value is Some { value } else { old(self).upgrade },
            final(self).needs_retry == old(self).needs_retry,
            final(self).saw_parameters == old(self).saw_parameters,
            final(self).method == old(self).method,
    {
        match value {
            None => {
                self.flag_error = true;
            },
            Some(v) => match flag {
                Flag::Oneway => {
                    self.oneway = Some(v);
                },
                Flag::More => {
                    self.more = Some(v);
                },
                Flag::Upgrade => {
                    self.upgrade = Some(v);
                },
            },
        }
    }

    /// Keeps the method's name as it was read.
    pub fn on_method(&mut self, name: String)
        ensures
            final(self).method == Some(name),
            final(self).oneway == old(self).oneway,
            final(self).more == old(self).more,
            final(self).upgrade == old(self).upgrade,
            final(self).needs_retry == old(self).needs_retry,
            final(self).saw_parameters == old(self).saw_parameters,
            final(self).flag_error == old(self).flag_error,
    {
        self.method = Some(name);
    }

    /// Records that empty or `null` parameters were handed on as a unit.
    pub fn on_empty_parameters(&mut self)
        ensures
            final(self).needs_retry,
            final(self).oneway == old(self).oneway,
            final(self).more == old(self).more,
            final(self).upgrade == old(self).upgrade,
            final(self).saw_parameters == old(self).saw_parameters,
            final(self).flag_error == old(self).flag_error,
            final(self).method == old(self).method,
    {
        self.needs_retry = true;
    }

    /// Whether the rest of the object must be drained after the parameters were read: they
    /// failed, having been handed on as a unit, so that the flags after them are still picked up.
    pub fn should_drain(&self, parameters_failed: bool) -> (r: bool)
        ensures
            r == (parameters_failed && self.needs_retry),
    {
        parameters_failed && self.needs_retry
    }

    /// Records that the object could not be drained to its end.
    pub fn on_drain_error(&mut self)
        ensures
            final(self).flag_error,
            final(self).oneway == old(self).oneway,
            final(self).more == old(self).more,
            final(self).upgrade == old(self).upgrade,
            final(self).needs_retry == old(self).needs_retry,
            final(self).saw_parameters == old(self).saw_parameters,
            final(self).method == old(self).method,
    {
        self.flag_error = true;
    }

    /// Decides, once the streamed reading ended (well or not), whether to keep its outcome or to
    /// read the method again from the stand-in object. Without a method name to rebuild it from,
    /// the streamed outcome stands.
    pub fn resolve(&mut self, streamed_ok: bool) -> (r: Resolution)
        ensures
            use_fallback(*old(self), streamed_ok) && old(self).method is Some
                ==> r == Resolution::Fallback(old(self).method->0),
            !(use_fallback(*old(self), streamed_ok) && old(self).method is Some) ==> r == Resolution::Streamed,
            r is Fallback ==> !streamed_ok && !old(self).flag_error,
    {
        if !streamed_ok && !self.flag_error && (self.needs_retry || !self.saw_parameters) {
            match self.method.take() {
                Some(m) => Resolution::Fallback(m),
                None => Resolution::Streamed,
            }
        } else {
            Resolution::Streamed
        }
    }

    /// The flags of the call, an absent one being unset.
    pub fn flags(&self) -> (r: (bool, bool, bool))
        ensures
            r.0 == (self.oneway == Some(true)),
            r.1 == (self.more == Some(true)),
            r.2 == (self.upgrade == Some(true)),
    {
        let oneway = match self.oneway {
            Some(v) => v,
            None => false,
        };
        let more = match self.more {
            Some(v) => v,
            None => false,
        };
        let upgrade = match self.upgrade {
            Some(v) => v,
            None => false,
        };
        (oneway, more, upgrade)
    }
}

/// Where the stand-in object of the fallback stands: about to give its `method` entry, its
/// `parameters` entry, or done.
#[derive(Debug, Clone, Copy, PartialEq, Eq)]
pub enum SyntheticState {
    Method,
    Parameters,
    Done,
}

/// A value the stand-in object gives.
#[derive(Debug, PartialEq, Eq)]
pub enum SyntheticValue<'a> {
    /// The method's name.
    Name(&'a str),
    /// An empty object of parameters.
    EmptyParameters,
}

/// The stand-in object `{"method": <name>, "parameters": {}}` the fallback reads the method from.
#[derive(Debug)]
pub struct SyntheticMethodMap<'a> {
    pub state: SyntheticState,
    pub method: &'a str,
}

impl<'a> SyntheticMethodMap<'a> {
    /// The stand-in object for the method named `method`, before its first entry.
    pub fn new(method: &'a str) -> (r: Self)
        ensures
            r.state == SyntheticState::Method,
            r.method == method,
    {
        SyntheticMethodMap { state: SyntheticState::Method, method }
    }

    /// The key of the next entry: `method`, then `parameters`, then none.
    pub fn next_key(&self) -> (r: Option<&'static str>)
        ensures
            self.state == SyntheticState::Method ==> (r matches Some(k) && k@ == "method"@),
            self.state == SyntheticState::Parameters ==> (r matches Some(k) && k@ == "parameters"@),
            self.state == SyntheticState::Done ==> r is None,
    {
        match self.state {
            SyntheticState::Method => Some("method"),
            SyntheticState::Parameters => Some("parameters"),
            SyntheticState::Done => None,
        }
    }

    /// The value of the entry whose key was given last, moving on to the next entry; `None` once
    /// the object is exhausted.
    pub fn next_value(&mut self) -> (r: Option<SyntheticValue<'a>>)
        ensures
            old(self).state == SyntheticState::Method ==> r == Some(SyntheticValue::Name(old(self).method))
                && final(self).state == SyntheticState::Parameters,
            old(self).state == SyntheticState::Parameters ==> r == Some(SyntheticValue::<'a>::EmptyParameters)
                && final(self).state == SyntheticState::Done,
            old(self).state == SyntheticState::Done ==> r is None && final(self).state == SyntheticState::Done,
            final(self).method == old(self).method,
    {
        match self.state {
            SyntheticState::Method => {
                self.state = SyntheticState::Parameters;
                Some(SyntheticValue::Name(self.method))
            },
            SyntheticState::Parameters => {
                self.state = SyntheticState::Done;
                Some(SyntheticValue::EmptyParameters)
            },
            SyntheticState::Done => None,
        }
    }

    /// How many entries are left.
    pub fn size_hint(&self) -> (r: Option<usize>)
        ensures
            r == Some(match self.state {
                SyntheticState::Method => 2usize,
                SyntheticState::Parameters => 1usize,
                SyntheticState::Done => 0usize,
            }),
    {
        match self.state {
            SyntheticState::Method => Some(2),
            SyntheticState::Parameters => Some(1),
            SyntheticState::Done => Some(0),
        }
    }
}

/// An object without entries: the empty parameters of the stand-in object.
#[derive(Debug, Clone, Copy)]
pub struct EmptyMapAccess;

impl EmptyMapAccess {
    /// The empty object.
    pub fn new() -> (r: Self) {
        EmptyMapAccess
    }

    /// There is no key.
    pub fn next_key(&self) -> (r: Option<&'static str>)
        ensures
            r is None,
    {
        None
    }

    /// No entry is left.
    pub fn size_hint(&self) -> (r: Option<usize>)
        ensures
            r == Some(0usize),
    {
        Some(0)
    }
}

/// How many entries a map with one key held back has left: one more than the rest, while the key
/// is still held.
pub fn prefixed_size_hint(rest: Option<usize>, holds_first: bool) -> (r: Option<usize>)
    requires
        rest matches Some(n) ==> n < usize::MAX,
    ensures
        r == match rest {
            Some(n) => Some((n + if holds_first { 1usize } else { 0usize }) as usize),
            None => None::<usize>,
        },
{
    match rest {
        Some(n) => Some(n + if holds_first { 1 } else { 0 }),
        None => None,
    }
}

/// A chain of calls was asked for with no call in it.
#[derive(Debug, PartialEq, Eq)]
pub struct EmptyChain;

/// The call a chain starts with: the first of the calls given, or the refusal of an empty chain.
pub fn chain_first<T>(first: Option<T>) -> (r: Result<T, EmptyChain>)
    ensures
        r is Ok <==> first is Some,
        r matches Ok(c) ==> first == Some(c),
{
    match first {
        Some(c) => Ok(c),
        None => Err(EmptyChain),
    }
}

} // verus!

use vstd::prelude::*;

verus! {

/// The kinds of record that the wire format carries.
#[derive(Clone, Copy, Debug, PartialEq, Eq)]
pub enum Record {
    Stroke,
    Sketch,
}

/// The field names of a record, in wire order. The positional form lists the
/// values in this order, and the named form uses these keys.
pub open spec fn field_names(r: Record) -> Seq<Seq<char>> {
    match r {
        Record::Stroke => seq!["type"@, "meta"@, "x"@, "y"@, "timestamp"@, "pressure"@],
        Record::Sketch => seq!["type"@, "meta"@, "strokes"@],
    }
}

/// Why a JSON value does not have the shape of a record.
pub ghost enum DecodeFault {
    UnknownField(Seq<char>),
    DuplicateField(Seq<char>),
    MissingField(Seq<char>),
    MissingElement(nat),
}

/// Why a JSON value does not have the shape of a record: a key that names no
/// field, a field given twice, a field never given, or the first position
/// missing from a positional record.
#[derive(Debug, PartialEq, Eq)]
pub enum DecodeError {
    UnknownField(String),
    DuplicateField(String),
    MissingField(String),
    MissingElement(usize),
}

impl View for DecodeError {
    type V = DecodeFault;

    open spec fn view(&self) -> DecodeFault {
        match self {
            DecodeError::UnknownField(k) => DecodeFault::UnknownField(k@),
            DecodeError::DuplicateField(k) => DecodeFault::DuplicateField(k@),
            DecodeError::MissingField(k) => DecodeFault::MissingField(k@),
            DecodeError::MissingElement(i) => DecodeFault::MissingElement(*i as nat),
        }
    }
}

/// The outcome of a check, with the error seen through its view.
pub open spec fn verdict(r: Result<(), DecodeError>) -> Result<(), DecodeFault> {
    match r {
        Ok(()) => Ok(()),
        Err(e) => Err(e@),
    }
}

/// What one key of a named record does to the set of fields seen so far.
pub open spec fn key_step(names: Seq<Seq<char>>, seen: Seq<bool>, key: Seq<char>) -> Result<
    Seq<bool>,
    DecodeFault,
> {
    match names.index_of_first(key) {
        None => Err(DecodeFault::UnknownField(key)),
        Some(i) => if seen[i] {
            Err(DecodeFault::DuplicateField(names[i]))
        } else {
            Ok(seen.update(i, true))
        },
    }
}

/// The keys of a named record taken in order, from the fields `seen` before
/// them: the fields seen after the last key, or the first fault.
pub open spec fn scan_keys(names: Seq<Seq<char>>, seen: Seq<bool>, keys: Seq<Seq<char>>) -> Result<
    Seq<bool>,
    DecodeFault,
>
    decreases keys.len(),
{
    if keys.len() == 0 {
        Ok(seen)
    } else {
        match key_step(names, seen, keys[0]) {
            Err(e) => Err(e),
            Ok(s) => scan_keys(names, s, keys.drop_first()),
        }
    }
}

/// Position of the first `false` in `s`, or `s.len()` when there is none.
pub open spec fn first_unseen(s: Seq<bool>) -> int
    decreases s.len(),
{
    if s.len() == 0 {
        0
    } else if !s[0] {
        0
    } else {
        1 + first_unseen(s.drop_first())
    }
}

/// After the last key: the first field in wire order that was never seen is missing.
pub open spec fn missing_verdict(names: Seq<Seq<char>>, seen: Seq<bool>) -> Result<(), DecodeFault> {
    let i = first_unseen(seen);
    if i < seen.len() {
        Err(DecodeFault::MissingField(names[i]))
    } else {
        Ok(())
    }
}

/// No field seen yet.
pub open spec fn none_seen(r: Record) -> Seq<bool> {
    Seq::new(field_names(r).len(), |i: int| false)
}

/// The verdict on a named record of kind `r` whose keys come in the order `keys`.
pub open spec fn keys_verdict(r: Record, keys: Seq<Seq<char>>) -> Result<(), DecodeFault> {
    match scan_keys(field_names(r), none_seen(r), keys) {
        Err(e) => Err(e),
        Ok(seen) => missing_verdict(field_names(r), seen),
    }
}

/// The verdict on a positional record of kind `r` with `n` elements.
pub open spec fn arity_verdict(r: Record, n: nat) -> Result<(), DecodeFault> {
    if n < field_names(r).len() {
        Err(DecodeFault::MissingElement(n))
    } else {
        Ok(())
    }
}

/// Views of a list of keys.
pub open spec fn key_views(keys: Seq<String>) -> Seq<Seq<char>> {
    keys.map_values(|k: String| k@)
}

/// The field names of `r`, in wire order.
pub fn field_list(r: Record) -> (v: Vec<String>)
    ensures
        key_views(v@) == field_names(r),
{
    let v: Vec<String> = match r {
        Record::Stroke => vec![
            "type".to_owned(),
            "meta".to_owned(),
            "x".to_owned(),
            "y".to_owned(),
            "timestamp".to_owned(),
            "pressure".to_owned(),
        ],
        Record::Sketch => vec!["type".to_owned(), "meta".to_owned(), "strokes".to_owned()],
    };
    assert(key_views(v@) =~= field_names(r));
    v
}

/// Number of fields of `r`.
pub fn field_count(r: Record) -> (n: usize)
    ensures
        n == field_names(r).len(),
{
    match r {
        Record::Stroke => 6,
        Record::Sketch => 3,
    }
}

/// Accepts a positional record of kind `r` holding `present` elements when it
/// holds every field; otherwise names the first missing position.
pub fn check_arity(r: Record, present: usize) -> (res: Result<(), DecodeError>)
    ensures
        verdict(res) == arity_verdict(r, present as nat),
{
    if present < field_count(r) {
        Err(DecodeError::MissingElement(present))
    } else {
        Ok(())
    }
}

/// The fields of a named record seen so far, while its keys are read one at a time.
pub struct FieldTracker {
    record: Record,
    names: Vec<String>,
    seen: Vec<bool>,
}

impl FieldTracker {
    /// The record kind being read.
    pub closed spec fn kind(&self) -> Record {
        self.record
    }

    /// One flag per field, in wire order: whether its key has been read.
    pub closed spec fn seen(&self) -> Seq<bool> {
        self.seen@
    }

    pub closed spec fn wf(&self) -> bool {
        &&& key_views(self.names@) == field_names(self.record)
        &&& self.seen@.len() == self.names@.len()
    }

    /// A tracker for a record of kind `r` before its first key.
    pub fn new(r: Record) -> (t: FieldTracker)
        ensures
            t.wf(),
            t.kind() == r,
            t.seen() == none_seen(r),
    {
        let names = field_list(r);
        let mut seen: Vec<bool> = Vec::new();
        let mut i: usize = 0;
        while i < names.len()
            invariant
                i <= names@.len(),
                seen@ == Seq::new(i as nat, |k: int| false),
            decreases names@.len() - i,
        {
            seen.push(false);
            i += 1;
        }
        assert(seen@ =~= none_seen(r));
        FieldTracker { record: r, names, seen }
    }

    /// Position of the field named `key`, if any.
    fn position(&self, key: &String) -> (p: Option<usize>)
        requires
            self.wf(),
        ensures
            match p {
                Some(i) => field_names(self.kind()).index_of_first(key@) == Some(i as int),
                None => field_names(self.kind()).index_of_first(key@) is None,
            },
    {
        let ghost names = field_names(self.record);
        proof {
            names.index_of_first_ensures(key@);
        }
        let mut i: usize = 0;
        while i < self.names.len()
            invariant
                self.wf(),
                names == field_names(self.record),
                i <= names.len(),
                forall|j: int| 0 <= j < i ==> names[j] != key@,
                match names.index_of_first(key@) {
                    Some(index) => {
                        &&& 0 <= index < names.len()
                        &&& names[index] == key@
                        &&& forall|j: int| 0 <= j < index ==> names[j] != key@
                    },
                    None => !names.contains(key@),
                },
            decreases names.len() - i,
        {
            assert(names[i as int] == self.names@[i as int]@);
            if self.names[i] == *key {
                return Some(i);
            }
            i += 1;
        }
        None
    }

    /// Reads one key: the position of its field, which is now seen, or the
    /// fault that ends the record, with nothing changed.
    pub fn accept_key(&mut self, key: &String) -> (res: Result<usize, DecodeError>)
        requires
            old(self).wf(),
        ensures
            final(self).wf(),
            final(self).kind() == old(self).kind(),
            match key_step(field_names(old(self).kind()), old(self).seen(), key@) {
                Ok(s) => {
                    &&& res is Ok
                    &&& final(self).seen() == s
                    &&& field_names(old(self).kind())[res->Ok_0 as int] == key@
                },
                Err(e) => {
                    &&& res is Err
                    &&& res->Err_0@ == e
                    &&& final(self).seen() == old(self).seen()
                },
            },
    {
        let ghost names = field_names(self.record);
        proof {
            names.index_of_first_ensures(key@);
        }
        match self.position(key) {
            None => Err(DecodeError::UnknownField(key.clone())),
            Some(i) => {
                if self.seen[i] {
                    assert(names[i as int] == self.names@[i as int]@);
                    Err(DecodeError::DuplicateField(self.names[i].clone()))
                } else {
                    self.seen.set(i, true);
                    Ok(i)
                }
            },
        }
    }

    /// After the last key: the first field in wire order that was never read.
    pub fn finish(&self) -> (res: Result<(), DecodeError>)
        requires
            self.wf(),
        ensures
            verdict(res) == missing_verdict(field_names(self.kind()), self.seen()),
    {
        let mut i: usize = 0;
        while i < self.seen.len()
            invariant
                self.wf(),
                i <= self.seen@.len(),
                forall|j: int| 0 <= j < i ==> self.seen@[j],
            decreases self.seen@.len() - i,
        {
            if !self.seen[i] {
                proof {
                    lemma_first_unseen_at(self.seen@, i as int);
                }
                assert(field_names(self.record)[i as int] == self.names@[i as int]@);
                return Err(DecodeError::MissingField(self.names[i].clone()));
            }
            i += 1;
        }
        proof {
            lemma_first_unseen_none(self.seen@);
        }
        Ok(())
    }
}

/// `i` is the first unseen position when all before it are seen and it is not.
proof fn lemma_first_unseen_at(s: Seq<bool>, i: int)
    requires
        0 <= i < s.len(),
        !s[i],
        forall|j: int| 0 <= j < i ==> s[j],
    ensures
        first_unseen(s) == i,
    decreases i,
{
    if i > 0 {
        lemma_first_unseen_at(s.drop_first(), i - 1);
    }
}

/// With every position seen, the first unseen one is past the end.
proof fn lemma_first_unseen_none(s: Seq<bool>)
    requires
        forall|j: int| 0 <= j < s.len() ==> s[j],
    ensures
        first_unseen(s) == s.len(),
    decreases s.len(),
{
    if s.len() > 0 {
        lemma_first_unseen_none(s.drop_first());
    }
}

/// The field names of each record are distinct.
proof fn lemma_field_names_distinct(r: Record)
    ensures
        field_names(r).no_duplicates(),
{
    reveal_strlit("type");
    reveal_strlit("meta");
    reveal_strlit("x");
    reveal_strlit("y");
    reveal_strlit("timestamp");
    reveal_strlit("pressure");
    reveal_strlit("strokes");
    let n = field_names(r);
    assert forall|i: int, j: int| 0 <= i < n.len() && 0 <= j < n.len() && i != j implies n[i]
        != n[j] by {
        if n[i] == n[j] {
            assert(n[i].len() == n[j].len());
            assert(n[i][0] == n[j][0]);
        }
    }
}

/// Reading distinct keys that each name a field not yet seen marks exactly
/// those fields as seen.
proof fn lemma_scan_distinct(names: Seq<Seq<char>>, seen: Seq<bool>, keys: Seq<Seq<char>>)
    requires
        names.no_duplicates(),
        seen.len() == names.len(),
        keys.no_duplicates(),
        forall|j: int| 0 <= j < keys.len() ==> names.contains(#[trigger] keys[j]),
        forall|i: int| 0 <= i < names.len() && keys.contains(#[trigger] names[i]) ==> !seen[i],
    ensures
        scan_keys(names, seen, keys) == Ok::<Seq<bool>, DecodeFault>(
            Seq::new(names.len(), |i: int| seen[i] || keys.contains(names[i])),
        ),
    decreases keys.len(),
{
    if keys.len() == 0 {
        assert(Seq::new(names.len(), |i: int| seen[i] || keys.contains(names[i])) =~= seen);
    } else {
        let k = keys[0];
        assert(names.contains(k));
        names.index_of_first_ensures(k);
        let i = names.index_of_first(k)->Some_0;
        assert(keys.contains(names[i]));
        let s2 = seen.update(i, true);
        let rest = keys.drop_first();
        assert forall|i2: int| 0 <= i2 < names.len() && rest.contains(#[trigger] names[i2]) implies !s2[i2] by {
            let j = choose|j: int| 0 <= j < rest.len() && rest[j] == names[i2];
            assert(keys[j + 1] == names[i2]);
            if i2 == i {
                assert(keys[0] == keys[j + 1]);
            }
            assert(keys.contains(names[i2]));
        }
        assert forall|j: int| 0 <= j < rest.len() implies names.contains(#[trigger] rest[j]) by {
            assert(rest[j] == keys[j + 1]);
        }
        lemma_scan_distinct(names, s2, rest);
        assert forall|i2: int| 0 <= i2 < names.len() implies (s2[i2] || rest.contains(names[i2])) == (
        seen[i2] || keys.contains(names[i2])) by {
            if keys.contains(names[i2]) {
                let j = choose|j: int| 0 <= j < keys.len() && keys[j] == names[i2];
                if j == 0 {
                    assert(names[i2] == names[i]);
                } else {
                    assert(rest[j - 1] == names[i2]);
                }
            }
            if rest.contains(names[i2]) {
                let j = choose|j: int| 0 <= j < rest.len() && rest[j] == names[i2];
                assert(keys[j + 1] == names[i2]);
            }
        }
        assert(Seq::new(names.len(), |i2: int| s2[i2] || rest.contains(names[i2])) =~= Seq::new(
            names.len(),
            |i2: int| seen[i2] || keys.contains(names[i2]),
        ));
    }
}

/// A record written with every field exactly once is accepted in either
/// form: named, with its keys in any order, and positional.
pub proof fn lemma_complete_record_accepted(r: Record, keys: Seq<Seq<char>>)
    requires
        keys.no_duplicates(),
        forall|j: int| 0 <= j < keys.len() ==> field_names(r).contains(#[trigger] keys[j]),
        forall|i: int| 0 <= i < field_names(r).len() ==> keys.contains(#[trigger] field_names(r)[i]),
    ensures
        keys_verdict(r, keys) == Ok::<(), DecodeFault>(()),
        arity_verdict(r, field_names(r).len()) == Ok::<(), DecodeFault>(()),
{
    let names = field_names(r);
    lemma_field_names_distinct(r);
    lemma_scan_distinct(names, none_seen(r), keys);
    let seen = Seq::new(names.len(), |i: int| none_seen(r)[i] || keys.contains(names[i]));
    assert forall|j: int| 0 <= j < seen.len() implies seen[j] by {
        assert(keys.contains(names[j]));
    }
    lemma_first_unseen_none(seen);
}

/// Checks the keys of a named record of kind `r`, in the order they came:
/// every key must name a field, no field may come twice, and every field must come.
pub fn check_keys(r: Record, keys: &Vec<String>) -> (res: Result<(), DecodeError>)
    ensures
        verdict(res) == keys_verdict(r, key_views(keys@)),
{
    let mut t = FieldTracker::new(r);
    let ghost all = key_views(keys@);
    let mut i: usize = 0;
    assert(all.subrange(0, all.len() as int) =~= all);
    while i < keys.len()
        invariant
            t.wf(),
            t.kind() == r,
            i <= keys@.len(),
            all == key_views(keys@),
            scan_keys(field_names(r), none_seen(r), all) == scan_keys(
                field_names(r),
                t.seen(),
                all.subrange(i as int, all.len() as int),
            ),
        decreases keys@.len() - i,
    {
        let ghost before = t.seen();
        let ghost rest = all.subrange(i as int, all.len() as int);
        assert(rest[0] == keys@[i as int]@);
        assert(rest.drop_first() =~= all.subrange(i + 1, all.len() as int));
        match t.accept_key(&keys[i]) {
            Err(e) => {
                return Err(e);
            },
            Ok(_) => {},
        }
        i += 1;
    }
    assert(all.subrange(i as int, all.len() as int) =~= Seq::<Seq<char>>::empty());
    t.finish()
}

} // verus!

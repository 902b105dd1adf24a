//! Readable names for server addresses, under the reserved `.virtual` suffix.
use crate::wire;
use crate::wire::bytes_equal;
use std::str::FromStr;
use vstd::prelude::*;
use vstd::slice::slice_subrange;

verus! {

/// The longest name, in bytes.
pub const MAX_NAME_LEN: usize = 253;

/// The longest label of a name, in bytes.
pub const MAX_LABEL_LEN: usize = 63;

/// Why a text is not a virtual name.
#[derive(Clone, Copy, Debug, PartialEq, Eq, Structural)]
pub enum VirtualNameError {
    Invalid,
}

impl VirtualNameError {
    /// The message for people.
    pub fn message(&self) -> (text: &'static str)
        ensures
            text@ == "virtual name must be a lowercase DNS name under the reserved .virtual suffix"@,
    {
        "virtual name must be a lowercase DNS name under the reserved .virtual suffix"
    }
}

/// The parts of `name` between its dots.
pub open spec fn labels(name: Seq<u8>) -> Seq<Seq<u8>>
    decreases name.len(),
{
    if name.len() == 0 {
        seq![Seq::empty()]
    } else {
        let before = labels(name.drop_last());
        if name.last() == 46 {
            before.push(Seq::empty())
        } else {
            before.drop_last().push(before.last().push(name.last()))
        }
    }
}

/// Whether a byte is a lower-case letter, a digit or a hyphen.
pub open spec fn label_byte(b: u8) -> bool {
    97 <= b <= 122 || 48 <= b <= 57 || b == 45
}

/// Whether a label has one to 63 letters, digits and hyphens, with no hyphen at either end.
pub open spec fn label_ok(label: Seq<u8>) -> bool {
    &&& 0 < label.len() <= MAX_LABEL_LEN
    &&& label[0] != 45
    &&& label.last() != 45
    &&& forall|i: int| 0 <= i < label.len() ==> label_byte(#[trigger] label[i])
}

/// The reserved last label, `virtual`.
pub open spec fn reserved_label() -> Seq<u8> {
    seq![118u8, 105, 114, 116, 117, 97, 108]
}

/// Whether the UTF-8 bytes `name` spell a canonical name: at most 253 bytes, two labels or more,
/// each of them well formed, the last one reserved.
pub open spec fn name_ok(name: Seq<u8>) -> bool {
    &&& name.len() <= MAX_NAME_LEN
    &&& labels(name).len() >= 2
    &&& labels(name).last() == reserved_label()
    &&& forall|i: int| 0 <= i < labels(name).len() ==> label_ok(#[trigger] labels(name)[i])
}

fn check_label(label: &[u8]) -> (ok: bool)
    ensures
        ok == label_ok(label@),
{
    if label.len() == 0 || label.len() > MAX_LABEL_LEN || label[0] == 45 || label[label.len() - 1]
        == 45 {
        return false;
    }
    let mut i: usize = 0;
    while i < label.len()
        invariant
            i <= label.len(),
            forall|j: int| 0 <= j < i ==> label_byte(#[trigger] label@[j]),
        decreases label.len() - i,
    {
        let b: u8 = label[i];
        if !((97 <= b && b <= 122) || (48 <= b && b <= 57) || b == 45) {
            assert(!label_byte(label@[i as int]));
            return false;
        }
        i += 1;
    }
    true
}

fn validate_virtual_name(value: &str) -> (valid: Result<(), VirtualNameError>)
    ensures
        valid == (if name_ok(wire::utf8(value@)) {
            Ok(())
        } else {
            Err::<(), VirtualNameError>(VirtualNameError::Invalid)
        }),
{
    let name: &[u8] = value.as_bytes();
    if name.len() > MAX_NAME_LEN {
        return Err(VirtualNameError::Invalid);
    }
    let mut start: usize = 0;
    let mut count: usize = 0;
    let mut all_ok: bool = true;
    let mut i: usize = 0;
    assert(name@.take(0) =~= Seq::<u8>::empty());
    assert(name@.subrange(0, 0) =~= Seq::<u8>::empty());
    while i < name.len()
        invariant
            start <= i <= name.len(),
            count <= i,
            labels(name@.take(i as int)).len() == count + 1,
            labels(name@.take(i as int)).last() == name@.subrange(start as int, i as int),
            all_ok == (forall|j: int|
                0 <= j < count ==> label_ok(#[trigger] labels(name@.take(i as int))[j])),
        decreases name.len() - i,
    {
        let ghost before = labels(name@.take(i as int));
        let ghost after = labels(name@.take(i + 1));
        assert(name@.take(i + 1).drop_last() =~= name@.take(i as int));
        assert(name@.take(i + 1).last() == name@[i as int]);
        if name[i] == 46 {
            let label_fits: bool = check_label(slice_subrange(name, start, i));
            assert(after[count as int] == before.last());
            assert(forall|j: int| 0 <= j < count ==> #[trigger] after[j] == before[j]);
            proof {
                if all_ok {
                    assert forall|j: int| 0 <= j < count implies label_ok(#[trigger] after[j]) by {
                        assert(label_ok(before[j]));
                    }
                } else {
                    let j = choose|j: int| 0 <= j < count && !label_ok(#[trigger] before[j]);
                    assert(!label_ok(after[j]));
                }
            }
            all_ok = all_ok && label_fits;
            count += 1;
            start = i + 1;
            assert(name@.subrange(start as int, i + 1) =~= Seq::<u8>::empty());
        } else {
            assert(forall|j: int| 0 <= j < count ==> #[trigger] after[j] == before[j]);
            proof {
                if all_ok {
                    assert forall|j: int| 0 <= j < count implies label_ok(#[trigger] after[j]) by {
                        assert(label_ok(before[j]));
                    }
                } else {
                    let j = choose|j: int| 0 <= j < count && !label_ok(#[trigger] before[j]);
                    assert(!label_ok(after[j]));
                }
            }
            assert(name@.subrange(start as int, i + 1) =~= name@.subrange(
                start as int,
                i as int,
            ).push(name@[i as int]));
        }
        i += 1;
    }
    assert(name@.take(name@.len() as int) =~= name@);
    let suffix: [u8; 7] = [118, 105, 114, 116, 117, 97, 108];
    assert(suffix@ =~= reserved_label());
    let last: &[u8] = slice_subrange(name, start, name.len());
    let last_fits: bool = check_label(last);
    let ghost all = labels(name@);
    if count >= 1 && all_ok && last_fits && bytes_equal(last, suffix.as_slice()) {
        assert forall|j: int| 0 <= j < all.len() implies label_ok(#[trigger] all[j]) by {
            if j == count {
                assert(all[j] == all.last());
            }
        }
        Ok(())
    } else {
        proof {
            if name_ok(name@) {
                assert(label_ok(all[count as int]));
            }
        }
        Err(VirtualNameError::Invalid)
    }
}

/// A readable, network-scoped name that resolves to a server address.
///
/// A name is a canonical lowercase DNS name under the reserved `.virtual` suffix. It never
/// reaches the operating system's resolver.
#[derive(Debug, Eq, PartialOrd, Ord, Hash)]
pub struct VirtualName(String);

impl View for VirtualName {
    type V = Seq<char>;

    closed spec fn view(&self) -> Seq<char> {
        self.0@
    }
}

impl vstd::std_specs::cmp::PartialEqSpecImpl for VirtualName {
    open spec fn obeys_eq_spec() -> bool {
        true
    }

    open spec fn eq_spec(&self, other: &Self) -> bool {
        self@ == other@
    }
}

impl PartialEq for VirtualName {
    fn eq(&self, other: &Self) -> (equal: bool) {
        self.0.eq(&other.0)
    }
}

impl Clone for VirtualName {
    fn clone(&self) -> (copy: Self)
        ensures
            copy@ == self@,
    {
        proof {
            use_type_invariant(self);
        }
        VirtualName(self.0.clone())
    }
}

impl VirtualName {
    /// Every name in existence is well formed.
    #[verifier::type_invariant]
    spec fn well_formed(self) -> bool {
        name_ok(wire::utf8(self.0@))
    }

    /// Accepts exactly the well-formed names.
    pub fn new(value: String) -> (name: Result<Self, VirtualNameError>)
        ensures
            match name {
                Ok(name) => name_ok(wire::utf8(value@)) && name@ == value@,
                Err(error) => !name_ok(wire::utf8(value@)) && error == VirtualNameError::Invalid,
            },
    {
        match validate_virtual_name(value.as_str()) {
            Ok(()) => Ok(VirtualName(value)),
            Err(error) => Err(error),
        }
    }

    /// The name's text, which is always well formed.
    pub fn as_str(&self) -> (text: &str)
        ensures
            text@ == self@,
            name_ok(wire::utf8(self@)),
    {
        proof {
            use_type_invariant(self);
        }
        self.0.as_str()
    }
}

impl FromStr for VirtualName {
    type Err = VirtualNameError;

    fn from_str(value: &str) -> (name: Result<Self, VirtualNameError>)
        ensures
            match name {
                Ok(name) => name_ok(wire::utf8(value@)) && name@ == value@,
                Err(error) => !name_ok(wire::utf8(value@)) && error == VirtualNameError::Invalid,
            },
    {
        VirtualName::new(value.to_owned())
    }
}

/// A name without a dot is its only label.
pub proof fn law_one_label(label: Seq<u8>)
    requires
        forall|i: int| 0 <= i < label.len() ==> #[trigger] label[i] != 46,
    ensures
        labels(label) == seq![label],
    decreases label.len(),
{
    if label.len() > 0 {
        let front = label.drop_last();
        assert forall|i: int| 0 <= i < front.len() implies #[trigger] front[i] != 46 by {
            assert(front[i] == label[i]);
        }
        law_one_label(front);
        assert(label[label.len() - 1] != 46);
        assert(front.push(label.last()) =~= label);
        assert(labels(label) =~= seq![label]);
    } else {
        assert(label =~= Seq::empty());
    }
}

/// What stands behind the last dot of a name is its last label, and what stands before it has the
/// other labels.
pub proof fn law_labels_stand_between_dots(name: Seq<u8>, label: Seq<u8>)
    requires
        forall|i: int| 0 <= i < label.len() ==> #[trigger] label[i] != 46,
    ensures
        labels(name.push(46) + label) == labels(name).push(label),
    decreases label.len(),
{
    let whole = name.push(46) + label;
    if label.len() > 0 {
        let front = label.drop_last();
        assert forall|i: int| 0 <= i < front.len() implies #[trigger] front[i] != 46 by {
            assert(front[i] == label[i]);
        }
        law_labels_stand_between_dots(name, front);
        assert(label[label.len() - 1] != 46);
        assert(whole.drop_last() =~= name.push(46) + front);
        assert(whole.last() == label.last());
        let before = labels(name).push(front);
        assert(before.drop_last() =~= labels(name));
        assert(before.last() == front);
        assert(front.push(label.last()) =~= label);
    } else {
        assert(whole =~= name.push(46));
        assert(name.push(46).drop_last() =~= name);
        assert(label =~= Seq::empty());
    }
}

/// A label is one exactly where it is one to sixty-three lower-case letters, digits and hyphens, and
/// neither begins nor ends with a hyphen.
pub proof fn law_which_labels_are_ones(label: Seq<u8>)
    ensures
        label_ok(label) <==> {
            &&& 1 <= label.len() <= 63
            &&& forall|i: int|
                0 <= i < label.len() ==> 97 <= #[trigger] label[i] <= 122 || 48 <= label[i] <= 57 || (
                label[i] == 45 && 0 < i < label.len() - 1)
        },
{
    if label_ok(label) {
        assert forall|i: int| 0 <= i < label.len() implies 97 <= #[trigger] label[i] <= 122 || 48
            <= label[i] <= 57 || (label[i] == 45 && 0 < i < label.len() - 1) by {
            assert(label_byte(label[i]));
        }
    }
    if 1 <= label.len() <= 63 && forall|i: int|
        0 <= i < label.len() ==> 97 <= #[trigger] label[i] <= 122 || 48 <= label[i] <= 57 || (
        label[i] == 45 && 0 < i < label.len() - 1) {
        assert forall|i: int| 0 <= i < label.len() implies label_byte(#[trigger] label[i]) by {}
        assert(label[0] != 45);
        assert(label[label.len() - 1] != 45);
    }
}

/// The ending that every name has: a dot and the word for what is virtual.
pub open spec fn ending() -> Seq<u8> {
    seq![46u8, 118, 105, 114, 116, 117, 97, 108]
}

/// One label before the ending is a name exactly where the label is one; only the ending's own
/// label behind it makes it one.
pub proof fn law_one_label_names(label: Seq<u8>)
    requires
        forall|i: int| 0 <= i < label.len() ==> #[trigger] label[i] != 46,
    ensures
        name_ok(label + ending()) <==> label_ok(label),
{
    let word = reserved_label();
    assert(label + ending() =~= label.push(46) + word);
    assert forall|i: int| 0 <= i < word.len() implies #[trigger] word[i] != 46 by {}
    law_one_label(label);
    law_labels_stand_between_dots(label, word);
    let all = labels(label + ending());
    assert(all =~= seq![label, word]);
    assert(label_ok(word)) by {
        assert forall|i: int| 0 <= i < word.len() implies label_byte(#[trigger] word[i]) by {}
    }
    if label_ok(label) {
        assert forall|i: int| 0 <= i < all.len() implies label_ok(#[trigger] all[i]) by {}
    }
    if name_ok(label + ending()) {
        assert(label_ok(all[0]));
    }
}

/// Where the labels of a name are put behind another label stays as it was: one more label in front
/// comes first, and the rest follow.
proof fn lemma_label_in_front(label: Seq<u8>, name: Seq<u8>)
    requires
        forall|i: int| 0 <= i < label.len() ==> #[trigger] label[i] != 46,
    ensures
        labels(label.push(46) + name) == seq![label] + labels(name),
    decreases name.len(),
{
    let whole = label.push(46) + name;
    if name.len() == 0 {
        law_one_label(label);
        law_labels_stand_between_dots(label, name);
        assert(labels(whole) =~= seq![label] + labels(name));
    } else {
        let front = name.drop_last();
        lemma_label_in_front(label, front);
        lemma_has_a_label(front);
        assert(whole.drop_last() =~= label.push(46) + front);
        let before = seq![label] + labels(front);
        assert(before.last() == labels(front).last());
        assert(before.drop_last() =~= seq![label] + labels(front).drop_last());
        assert(labels(whole) =~= seq![label] + labels(name));
    }
}

/// Every text has at least one label.
proof fn lemma_has_a_label(name: Seq<u8>)
    ensures
        labels(name).len() > 0,
    decreases name.len(),
{
    if name.len() > 0 {
        lemma_has_a_label(name.drop_last());
    }
}

/// One more label in front of a name makes a name exactly where the label is one and the whole is
/// not too long.
pub proof fn law_names_below_a_name(label: Seq<u8>, name: Seq<u8>)
    requires
        forall|i: int| 0 <= i < label.len() ==> #[trigger] label[i] != 46,
        name_ok(name),
    ensures
        name_ok(label.push(46) + name) <==> label_ok(label) && label.len() + 1 + name.len() <= 253,
{
    lemma_label_in_front(label, name);
    let all = labels(label.push(46) + name);
    assert(all[0] == label);
    assert(all.last() == labels(name).last());
    if label_ok(label) {
        assert forall|i: int| 0 <= i < all.len() implies label_ok(#[trigger] all[i]) by {
            if i > 0 {
                assert(all[i] == labels(name)[i - 1]);
            }
        }
    }
    if name_ok(label.push(46) + name) {
        assert(label_ok(all[0]));
    }
}

} // verus!

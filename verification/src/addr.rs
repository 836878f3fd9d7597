//! Octal tree addresses.
use crate::text;
use crate::text::u64_text;
use vstd::prelude::*;

verus! {

/// The largest slot a child may occupy.
pub const MAX_SLOT: u8 = 7;

/// An address in the octal tree: the root, or a slot below another address.
#[derive(Debug)]
pub enum OctAddr {
    /// The root, written `0`.
    Root,
    /// The child at a slot of another address.
    Child(Box<OctAddr>, u8),
}

/// The text is that of no address.
pub open spec fn is_no_address(s: Seq<char>) -> bool {
    forall|addr: OctAddr| addr.wf() ==> #[trigger] addr.spec_text() != s
}

impl OctAddr {
    /// Every slot on the path fits an octal digit.
    pub open spec fn wf(self) -> bool
        decreases self,
    {
        match self {
            OctAddr::Root => true,
            OctAddr::Child(up, slot) => slot <= MAX_SLOT && up.wf(),
        }
    }

    /// Number of digits; the root has one.
    pub open spec fn spec_depth(self) -> nat
        decreases self,
    {
        match self {
            OctAddr::Root => 1,
            OctAddr::Child(up, _) => up.spec_depth() + 1,
        }
    }

    /// The slot below the parent; none for the root.
    pub open spec fn spec_slot(self) -> Option<u8> {
        match self {
            OctAddr::Root => None,
            OctAddr::Child(_, slot) => Some(slot),
        }
    }

    /// The address one step up; none for the root.
    pub open spec fn spec_parent(self) -> Option<OctAddr> {
        match self {
            OctAddr::Root => None,
            OctAddr::Child(up, _) => Some(*up),
        }
    }

    /// The dotted rendering, such as `0.1.2`.
    pub open spec fn spec_text(self) -> Seq<char>
        decreases self,
    {
        match self {
            OctAddr::Root => "0"@,
            OctAddr::Child(up, slot) => up.spec_text() + "."@ + text::decimal(slot as nat),
        }
    }

    /// A copy of the address.
    pub fn copied(&self) -> (r: OctAddr)
        ensures
            r == *self,
        decreases self,
    {
        match self {
            OctAddr::Root => OctAddr::Root,
            OctAddr::Child(up, slot) => OctAddr::Child(Box::new(up.copied()), *slot),
        }
    }

    /// Whether two addresses name the same place.
    pub fn same(&self, other: &OctAddr) -> (r: bool)
        ensures
            r == (*self == *other),
        decreases self,
    {
        match (self, other) {
            (OctAddr::Root, OctAddr::Root) => true,
            (OctAddr::Child(a, s), OctAddr::Child(b, t)) => *s == *t && a.same(b),
            _ => false,
        }
    }

    /// Whether this is the root.
    pub fn is_root(&self) -> (r: bool)
        ensures
            r == (*self is Root),
    {
        match self {
            OctAddr::Root => true,
            _ => false,
        }
    }

    /// The slot below the parent; none for the root.
    pub fn slot(&self) -> (r: Option<u8>)
        ensures
            r == self.spec_slot(),
    {
        match self {
            OctAddr::Root => None,
            OctAddr::Child(_, slot) => Some(*slot),
        }
    }

    /// The address one step up; none for the root.
    pub fn parent(&self) -> (r: Option<OctAddr>)
        ensures
            r == self.spec_parent(),
    {
        match self {
            OctAddr::Root => None,
            OctAddr::Child(up, _) => Some(up.copied()),
        }
    }

    /// The address of the child at `slot`.
    pub fn child(&self, slot: u8) -> (r: OctAddr)
        ensures
            r == OctAddr::Child(Box::new(*self), slot),
            r.spec_parent() == Some(*self),
            r.spec_slot() == Some(slot),
    {
        OctAddr::Child(Box::new(self.copied()), slot)
    }

    /// The dotted rendering, such as `0.1.2`.
    pub fn text(&self) -> (r: String)
        ensures
            r@ == self.spec_text(),
        decreases self,
    {
        match self {
            OctAddr::Root => "0".to_owned(),
            OctAddr::Child(up, slot) => {
                let mut r: String = up.text();
                r.append(".");
                let d: String = u64_text(*slot as u64);
                r.append(d.as_str());
                r
            },
        }
    }

    /// Read a dotted address, such as `0.1.2`.
    pub fn parse(s: &str) -> (r: Option<OctAddr>)
        ensures
            match r {
                Some(addr) => addr.wf() && addr.spec_text() == s@,
                None => is_no_address(s@),
            },
        decreases s@.len(),
    {
        let n: usize = s.unicode_len();
        proof {
            reveal_strlit("0");
            reveal_strlit(".");
        }
        if n == 1 && s.get_char(0) == '0' {
            assert(s@ =~= "0"@);
            return Some(OctAddr::Root);
        }
        if n < 3 {
            proof {
                assert forall|addr: OctAddr| addr.wf() implies #[trigger] addr.spec_text()
                    != s@ by {
                    addr.lemma_text_len();
                }
            }
            return None;
        }
        let digit: u32 = s.get_char(n - 1) as u32;
        if s.get_char(n - 2) != '.' || digit < 48 || digit > 55 {
            proof {
                assert forall|addr: OctAddr| addr.wf() implies #[trigger] addr.spec_text()
                    != s@ by {
                    addr.lemma_text_end();
                }
            }
            return None;
        }
        let slot: u8 = (digit - 48) as u8;
        let head: &str = s.substring_char(0, n - 2);
        match OctAddr::parse(head) {
            Some(up) => {
                let r: OctAddr = OctAddr::Child(Box::new(up), slot);
                assert(r.spec_text() =~= s@);
                Some(r)
            },
            None => {
                proof {
                    assert forall|addr: OctAddr| addr.wf() implies #[trigger] addr.spec_text()
                        != s@ by {
                        addr.lemma_text_end();
                        match addr {
                            OctAddr::Root => {},
                            OctAddr::Child(up, _) => {
                                if addr.spec_text() == s@ {
                                    assert(up.spec_text() =~= head@);
                                }
                            },
                        }
                    }
                }
                None
            },
        }
    }

    proof fn lemma_text_len(self)
        requires
            self.wf(),
        ensures
            self.spec_text().len() + 1 == 2 * self.spec_depth(),
            self is Root ==> self.spec_text() == "0"@,
        decreases self,
    {
        reveal_strlit("0");
        reveal_strlit(".");
        match self {
            OctAddr::Root => {},
            OctAddr::Child(up, _) => {
                up.lemma_text_len();
            },
        }
    }

    proof fn lemma_text_end(self)
        requires
            self.wf(),
        ensures
            self is Root ==> self.spec_text().len() == 1,
            self matches OctAddr::Child(up, slot) ==> {
                &&& self.spec_text().len() == up.spec_text().len() + 2
                &&& self.spec_text()[self.spec_text().len() - 2] == '.'
                &&& self.spec_text().last() == (48 + slot) as char
                &&& 48 <= self.spec_text().last() as u32 <= 55
                &&& self.spec_text().take(self.spec_text().len() - 2) == up.spec_text()
            },
    {
        reveal_strlit("0");
        reveal_strlit(".");
        match self {
            OctAddr::Root => {},
            OctAddr::Child(up, _) => {
                assert(self.spec_text().take(self.spec_text().len() - 2) =~= up.spec_text());
            },
        }
    }
}

/// An address and its text belong together one to one.
pub proof fn law_addresses_have_distinct_texts(a: OctAddr, b: OctAddr)
    requires
        a.wf(),
        b.wf(),
        a.spec_text() == b.spec_text(),
    ensures
        a == b,
    decreases a,
{
    a.lemma_text_len();
    b.lemma_text_len();
    a.lemma_text_end();
    b.lemma_text_end();
    match (a, b) {
        (OctAddr::Child(up, s), OctAddr::Child(other, t)) => {
            law_addresses_have_distinct_texts(*up, *other);
        },
        _ => {},
    }
}

/// An address is read back from its text, and a text that is no address is not read.
pub proof fn law_addresses_are_read_back(
    addr: OctAddr,
    shown: String,
    source: &str,
    r: Option<OctAddr>,
)
    requires
        addr.wf(),
        call_ensures(OctAddr::text, (&addr,), shown),
        call_ensures(OctAddr::parse, (source,), r),
    ensures
        source@ == shown@ ==> r == Some(addr),
        r == Some(addr) ==> source@ == shown@,
        r matches Some(got) ==> got.wf(),
{
    if source@ == shown@ {
        match r {
            Some(got) => {
                law_addresses_have_distinct_texts(got, addr);
            },
            None => {
                assert(addr.spec_text() != source@);
            },
        }
    }
}

/// A child's address is the parent's with the slot behind it: in the tree, where the
/// parent and the slot come back, and in the text, behind a dot. The root has neither
/// and is written as a zero.
pub proof fn law_child_address_extends_the_parents(
    addr: OctAddr,
    slot: u8,
    child: OctAddr,
    up: Option<OctAddr>,
    digit: Option<u8>,
    root: bool,
    above: String,
    below: String,
    depth: nat,
)
    requires
        slot <= 7,
        call_ensures(OctAddr::child, (&addr, slot), child),
        call_ensures(OctAddr::parent, (&child,), up),
        call_ensures(OctAddr::slot, (&child,), digit),
        call_ensures(OctAddr::is_root, (&child,), root),
        call_ensures(OctAddr::text, (&addr,), above),
        call_ensures(OctAddr::text, (&child,), below),
    ensures
        up == Some(addr),
        digit == Some(slot),
        !root,
        below@.len() == above@.len() + 2,
        below@.take(above@.len() as int) == above@,
        below@[above@.len() as int] == '.',
        below@.last() as u32 == '0' as u32 + slot,
        addr is Root ==> above@ == "0"@,
{
    reveal_strlit(".");
    assert(below@.take(above@.len() as int) =~= above@);
}

/// Two addresses are the same where one is the other; only the root is a root.
pub proof fn law_same_address_is_the_address(
    a: OctAddr,
    b: OctAddr,
    r: bool,
    root: bool,
    up: Option<OctAddr>,
    slot: Option<u8>,
)
    requires
        call_ensures(OctAddr::same, (&a, &b), r),
        call_ensures(OctAddr::is_root, (&a,), root),
        call_ensures(OctAddr::parent, (&a,), up),
        call_ensures(OctAddr::slot, (&a,), slot),
    ensures
        r <==> a == b,
        root <==> up is None,
        root <==> slot is None,
        root <==> a == OctAddr::Root,
{
}

} // verus!

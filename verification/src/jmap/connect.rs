//! What an account of a session can take.

use crate::jmap::session;
use crate::jmap::session::{Limits, Session};
use crate::text;
use crate::types;
use crate::types::ObjectType;
use vstd::prelude::*;

verus! {

/// A session whose account was chosen.
#[derive(Debug)]
pub struct Connected {
    pub session: Session,
    pub limits: Limits,
    pub account_id: String,
    pub supported: Vec<ObjectType>,
}

/// Whether a kind of object is tried: an account that the session does not
/// list may take anything.
pub open spec fn is_tried(s: session::SessionVal, account_id: Seq<char>, ty: ObjectType) -> bool {
    session::entry(s.accounts, account_id) is None || session::account_supports(
        s,
        account_id,
        types::type_capability(ty),
    )
}

/// The kinds that are tried, in order.
pub open spec fn tried_types(
    s: session::SessionVal,
    account_id: Seq<char>,
    all: Seq<ObjectType>,
) -> Seq<ObjectType>
    decreases all.len(),
{
    if all.len() == 0 {
        Seq::empty()
    } else if is_tried(s, account_id, all.last()) {
        tried_types(s, account_id, all.drop_last()).push(all.last())
    } else {
        tried_types(s, account_id, all.drop_last())
    }
}

/// The warning about a kind that is skipped.
pub open spec fn skip_warning(ty: ObjectType) -> Seq<char> {
    "target account does not advertise "@ + types::type_capability(ty) + "; skipping type "@
        + types::name_of(ty)
}

/// The warnings about the kinds that are skipped, in order.
pub open spec fn skip_warnings(
    s: session::SessionVal,
    account_id: Seq<char>,
    all: Seq<ObjectType>,
) -> Seq<Seq<char>>
    decreases all.len(),
{
    if all.len() == 0 {
        Seq::empty()
    } else if is_tried(s, account_id, all.last()) {
        skip_warnings(s, account_id, all.drop_last())
    } else {
        skip_warnings(s, account_id, all.drop_last()).push(skip_warning(all.last()))
    }
}

/// The warning about an account that the session does not list, unless it was
/// chosen by its name.
pub fn unlisted_warning(s: &Session, account_id: &str, chosen_by_name: bool) -> (r: Option<String>)
    ensures
        crate::json::text_view(r) == (if session::entry(s@.accounts, account_id@) is None
            && !chosen_by_name {
            Some(
                "account id "@ + account_id@
                    + " is not enumerated in this session; capabilities cannot be gated and every type will be attempted"@,
            )
        } else {
            None
        }),
{
    if s.account(account_id).is_none() && !chosen_by_name {
        let mut m: String = text::joined("account id ", account_id);
        m.append(
            " is not enumerated in this session; capabilities cannot be gated and every type will be attempted",
        );
        Some(m)
    } else {
        None
    }
}

/// Settles what an account of a session can take, with a warning for each kind
/// that it does not.
pub fn prepare(session: Session, limits: Limits, account_id: String) -> (r: (
    Connected,
    Vec<String>,
))
    ensures
        r.0.session == session,
        r.0.limits == limits,
        r.0.account_id == account_id,
        r.0.supported@ == tried_types(session@, account_id@, types::all_types()),
        text::texts(r.1@) == skip_warnings(session@, account_id@, types::all_types()),
{
    let all: Vec<ObjectType> = ObjectType::all();
    let known: bool = session.account(account_id.as_str()).is_some();
    let mut supported: Vec<ObjectType> = Vec::new();
    let mut warnings: Vec<String> = Vec::new();
    let mut i: usize = 0;
    proof {
        assert(all@.take(0) =~= Seq::empty());
        assert(supported@ =~= Seq::empty());
        assert(text::texts(warnings@) =~= Seq::empty());
    }
    while i < all.len()
        invariant
            i <= all@.len(),
            all@ == types::all_types(),
            known == (session::entry(session@.accounts, account_id@) is Some),
            supported@ == tried_types(session@, account_id@, all@.take(i as int)),
            text::texts(warnings@) == skip_warnings(session@, account_id@, all@.take(i as int)),
        decreases all@.len() - i,
    {
        assert(all@.take(i as int + 1).drop_last() =~= all@.take(i as int));
        let ty: ObjectType = all[i];
        let urn: &'static str = ty.capability_urn();
        if !known || session.supports(account_id.as_str(), urn) {
            supported.push(ty);
        } else {
            let ghost before = text::texts(warnings@);
            let mut w: String = text::joined("target account does not advertise ", urn);
            w.append("; skipping type ");
            w.append(ty.jmap_name());
            warnings.push(w);
            assert(text::texts(warnings@) =~= before.push(skip_warning(ty)));
        }
        i = i + 1;
    }
    assert(all@.take(i as int) =~= all@);
    (Connected { session, limits, account_id, supported }, warnings)
}

impl Connected {
    /// Whether a kind of object is tried.
    pub fn supports(&self, ty: ObjectType) -> (r: bool)
        ensures
            r == self.supported@.contains(ty),
    {
        let mut i: usize = 0;
        while i < self.supported.len()
            invariant
                i <= self.supported@.len(),
                forall|k: int| 0 <= k < i ==> self.supported@[k] != ty,
            decreases self.supported@.len() - i,
        {
            if self.supported[i] == ty {
                assert(self.supported@[i as int] == ty);
                return true;
            }
            i = i + 1;
        }
        false
    }

    /// The kinds of objects that are tried.
    pub fn supported_types(&self) -> (r: &Vec<ObjectType>)
        ensures
            *r == self.supported,
    {
        &self.supported
    }
}

} // verus!

//! Trustees: a principal named either by SID or by a NUL-terminated
//! WTF-16 name, as the platform's effective-rights queries take it.

use vstd::prelude::*;

use crate::constants::{trustee_form_value, TrusteeForm, NO_MULTIPLE_TRUSTEE, TRUSTEE_IS_UNKNOWN};
use crate::sid::{Sid, SidModel};
use crate::utilities::{
    buf_from_os, first_nul, has_nul, is_first_index, lemma_first_index_unique, lemma_first_nul,
    search_buffer, through_nul,
};

verus! {

/// What a trustee refers to.
#[derive(Debug)]
pub enum TrusteeSubject {
    /// A NUL-terminated WTF-16 name, terminator included.
    Name(Vec<u16>),
    /// The SID the trustee was built with.
    Sid(Sid),
    /// Objects and a SID, which this crate does not look into.
    ObjectsAndSid,
    /// Objects and a name, which this crate does not look into.
    ObjectsAndName,
    /// The form is explicitly marked bad.
    Bad,
}

/// A subject as values: its form, its SID if it is one, and its name
/// (empty unless it is one).
pub type SubjectModel = (TrusteeForm, Option<SidModel>, Seq<u16>);

impl View for TrusteeSubject {
    type V = SubjectModel;

    open spec fn view(&self) -> SubjectModel {
        match self {
            TrusteeSubject::Name(n) => (TrusteeForm::TRUSTEE_IS_NAME, None, n@),
            TrusteeSubject::Sid(s) => (TrusteeForm::TRUSTEE_IS_SID, Some(s@), Seq::empty()),
            TrusteeSubject::ObjectsAndSid => (
                TrusteeForm::TRUSTEE_IS_OBJECTS_AND_SID,
                None,
                Seq::empty(),
            ),
            TrusteeSubject::ObjectsAndName => (
                TrusteeForm::TRUSTEE_IS_OBJECTS_AND_NAME,
                None,
                Seq::empty(),
            ),
            TrusteeSubject::Bad => (TrusteeForm::TRUSTEE_BAD_FORM, None, Seq::empty()),
        }
    }
}

/// A trustee: a form value, a trustee type, a multiple-trustee operation,
/// and the SID or name buffer the form points at.
#[derive(Debug)]
pub struct Trustee {
    form: u32,
    trustee_type: u32,
    multiple_trustee_operation: u32,
    sid: Option<Sid>,
    name: Vec<u16>,
}

impl Trustee {
    #[verifier::type_invariant]
    spec fn inv(&self) -> bool {
        &&& self.form == 0 ==> self.sid is Some
        &&& self.form == 1 ==> has_nul(self.name@)
    }

    /// The raw form value.
    pub closed spec fn form_spec(&self) -> u32 {
        self.form
    }

    /// The trustee type.
    pub closed spec fn type_spec(&self) -> u32 {
        self.trustee_type
    }

    /// The multiple-trustee operation.
    pub closed spec fn operation_spec(&self) -> u32 {
        self.multiple_trustee_operation
    }

    /// What [`Trustee::get_subject`] returns, for a recognised form.
    pub closed spec fn subject_spec(&self) -> SubjectModel {
        if self.form == 0 {
            (TrusteeForm::TRUSTEE_IS_SID, Some(self.sid->0@), Seq::empty())
        } else if self.form == 1 {
            (TrusteeForm::TRUSTEE_IS_NAME, None, through_nul(self.name@))
        } else if self.form == 2 {
            (TrusteeForm::TRUSTEE_BAD_FORM, None, Seq::empty())
        } else if self.form == 3 {
            (TrusteeForm::TRUSTEE_IS_OBJECTS_AND_SID, None, Seq::empty())
        } else {
            (TrusteeForm::TRUSTEE_IS_OBJECTS_AND_NAME, None, Seq::empty())
        }
    }

    /// A trustee that names `sid`, of unknown type and with no multiple
    /// trustee.
    pub fn from_sid(sid: &Sid) -> (r: Trustee)
        ensures
            r.form_spec() == trustee_form_value(TrusteeForm::TRUSTEE_IS_SID),
            r.type_spec() == TRUSTEE_IS_UNKNOWN,
            r.operation_spec() == NO_MULTIPLE_TRUSTEE,
            r.subject_spec() == (TrusteeForm::TRUSTEE_IS_SID, Some(sid@), Seq::<u16>::empty()),
    {
        Trustee {
            form: 0,
            trustee_type: TRUSTEE_IS_UNKNOWN,
            multiple_trustee_operation: NO_MULTIPLE_TRUSTEE,
            sid: Some(sid.copy()),
            name: Vec::new(),
        }
    }

    /// A trustee that names the principal whose name has the WTF-16 code
    /// units `name`; the trustee holds them followed by a NUL.
    pub fn from_name(name: &[u16]) -> (r: Trustee)
        ensures
            r.form_spec() == trustee_form_value(TrusteeForm::TRUSTEE_IS_NAME),
            r.type_spec() == TRUSTEE_IS_UNKNOWN,
            r.operation_spec() == NO_MULTIPLE_TRUSTEE,
            r.subject_spec().0 == TrusteeForm::TRUSTEE_IS_NAME,
            r.subject_spec().2 == through_nul(name@.push(0)),
            (forall|i: int| 0 <= i < name@.len() ==> name@[i] != 0) ==> r.subject_spec() == (
                TrusteeForm::TRUSTEE_IS_NAME,
                None::<SidModel>,
                name@.push(0),
            ),
    {
        let buf = buf_from_os(name);
        proof {
            let s = buf@;
            assert(s[name@.len() as int] == 0);
            lemma_first_nul(s);
            if forall|i: int| 0 <= i < name@.len() ==> name@[i] != 0 {
                assert(is_first_index(s, 0, name@.len() as int));
                lemma_first_index_unique(s, 0, name@.len() as int, first_nul(s));
                assert(through_nul(s) =~= s);
            }
        }
        Trustee {
            form: 1,
            trustee_type: TRUSTEE_IS_UNKNOWN,
            multiple_trustee_operation: NO_MULTIPLE_TRUSTEE,
            sid: None,
            name: buf,
        }
    }

    /// A trustee from the values the platform fills in; `None` when a SID
    /// form comes without a SID or a name form without a NUL-terminated
    /// name.
    pub fn from_raw_parts(
        form: u32,
        trustee_type: u32,
        multiple_trustee_operation: u32,
        sid: Option<Sid>,
        name: Vec<u16>,
    ) -> (r: Option<Trustee>)
        ensures
            r is Some <==> ((form == 0 ==> sid is Some) && (form == 1 ==> has_nul(name@))),
            r matches Some(t) ==> t.form_spec() == form && t.type_spec() == trustee_type
                && t.operation_spec() == multiple_trustee_operation,
            r matches Some(t) ==> (form == 0 ==> t.subject_spec().1 == Some(sid->0@)),
            r matches Some(t) ==> (form == 1 ==> t.subject_spec().2 == through_nul(name@)),
    {
        if form == 0 && sid.is_none() {
            return None;
        }
        if form == 1 {
            match search_buffer(0, name.as_slice()) {
                None => {
                    return None;
                },
                Some(_) => {},
            }
        }
        Some(Trustee { form, trustee_type, multiple_trustee_operation, sid, name })
    }

    /// The form; `Err` with the raw value when it is not a recognised one.
    pub fn form(&self) -> (r: Result<TrusteeForm, u32>)
        ensures
            r matches Ok(f) ==> trustee_form_value(f) == self.form_spec(),
            r matches Err(v) ==> v == self.form_spec(),
            r is Err <==> self.form_spec() > 4,
    {
        match TrusteeForm::from_raw(self.form) {
            Some(f) => Ok(f),
            None => Err(self.form),
        }
    }

    /// The trustee type.
    pub fn trustee_type(&self) -> (r: u32)
        ensures
            r == self.type_spec(),
    {
        self.trustee_type
    }

    /// The multiple-trustee operation.
    pub fn multiple_trustee_operation(&self) -> (r: u32)
        ensures
            r == self.operation_spec(),
    {
        self.multiple_trustee_operation
    }

    /// What the trustee refers to; a name comes with its terminator.
    pub fn get_subject(&self) -> (r: TrusteeSubject)
        requires
            self.form_spec() <= 4,
        ensures
            r@ == self.subject_spec(),
    {
        proof {
            use_type_invariant(self);
        }
        if self.form == 0 {
            match &self.sid {
                Some(s) => TrusteeSubject::Sid(s.copy()),
                None => {
                    proof {
                        assert(false);
                    }
                    TrusteeSubject::Bad
                },
            }
        } else if self.form == 1 {
            let end = match search_buffer(0, self.name.as_slice()) {
                Some(p) => p,
                None => {
                    proof {
                        assert(false);
                    }
                    0
                },
            };
            proof {
                lemma_first_nul(self.name@);
                lemma_first_index_unique(self.name@, 0, end as int, first_nul(self.name@));
            }
            let n = self.name.len();
            let mut v: Vec<u16> = Vec::new();
            let mut i: usize = 0;
            while i <= end
                invariant
                    n == self.name@.len(),
                    end < self.name@.len(),
                    i <= end + 1,
                    v@ =~= self.name@.subrange(0, i as int),
                decreases end + 1 - i,
            {
                v.push(self.name[i]);
                i += 1;
            }
            TrusteeSubject::Name(v)
        } else if self.form == 2 {
            TrusteeSubject::Bad
        } else if self.form == 3 {
            TrusteeSubject::ObjectsAndSid
        } else {
            TrusteeSubject::ObjectsAndName
        }
    }
}

} // verus!

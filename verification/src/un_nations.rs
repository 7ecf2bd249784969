//! The UN member-state bootstrap: one entry per member, its display name
//! matched exactly against the seed alias table to attach a canonical
//! identifier where one is known.

use vstd::prelude::*;
use crate::builders::BuildError;
use crate::dom::{parse_sel_s, select_of, texts_of, Elem, Selector};
use crate::ident::Identifier;
use crate::registry::{alias_exact_at, AliasTable};
use crate::text::{concat_at, trim_s, views_of};

verus! {

/// One UN member state: its listed name, and the canonical identifier of the
/// matching seed territory when the name is known there.
pub struct UNMember {
    pub name: String,
    pub iso_3166: Option<Identifier>,
}

/// The mathematical shape of a `UNMember`.
pub struct UNMemberG {
    pub name: Seq<char>,
    pub iso_3166: Option<Seq<char>>,
}

impl View for UNMember {
    type V = UNMemberG;

    open spec fn view(&self) -> UNMemberG {
        (UNMemberG {
            name: self.name@,
            iso_3166: match self.iso_3166 {
                Some(i) => Some(i@),
                None => None,
            },
        })
    }
}

impl Clone for UNMember {
    fn clone(&self) -> (r: Self)
        ensures
            r@ == self@,
    {
        UNMember {
            name: self.name.clone(),
            iso_3166: match &self.iso_3166 {
                Some(i) => Some(i.clone()),
                None => None,
            },
        }
    }
}

/// The views of a list of members.
pub open spec fn members_views(v: Seq<UNMember>) -> Seq<UNMemberG> {
    Seq::new(v.len(), |i: int| v[i]@)
}

/// The members harvested from the matched elements from `i` on: each
/// element's concatenated text is the name; the identifier comes from the
/// first seed entry listing exactly the trimmed name.
pub open spec fn un_members_at(
    els: Seq<Elem>,
    i: int,
    countries: Seq<(Identifier, Vec<String>)>,
) -> Seq<UNMemberG>
    decreases els.len() - i,
{
    if i < 0 || i >= els.len() {
        Seq::empty()
    } else {
        let title = concat_at(texts_of(els[i]), 0);
        let id = match alias_exact_at(countries, trim_s(title), 0) {
            Some(j) => Some(countries[j].0@),
            None => None,
        };
        seq![(UNMemberG { name: title, iso_3166: id })] + un_members_at(els, i + 1, countries)
    }
}

/// What harvesting the member list from a document yields: the elements
/// matched by the member-name selector, one member each; an error when the
/// selector is malformed or no member was found at all.
pub open spec fn un_from_document_s(doc: Elem, countries: Seq<(Identifier, Vec<String>)>) -> Result<
    Seq<UNMemberG>,
    BuildError,
> {
    match parse_sel_s(".country div>h2"@) {
        None => Err(BuildError::BadSelector),
        Some(steps) => {
            let members = un_members_at(select_of(doc, steps), 0, countries);
            if members.len() == 0 {
                Err(BuildError::EmptyInput)
            } else {
                Ok(members)
            }
        },
    }
}

impl UNMember {
    /// Plain constructor; both fields are kept as given.
    pub fn new(name: String, code: Option<Identifier>) -> (r: Self)
        ensures
            r.name@ == name@,
            r@.iso_3166 == (match code {
                Some(c) => Some(c@),
                None => None,
            }),
    {
        Self { name, iso_3166: code }
    }

    /// Harvests the UN member states from a parsed document; exact
    /// counterpart of `un_from_document_s`.
    #[verifier::loop_isolation(false)]
    pub fn from_document(doc: &Elem, countries: &AliasTable) -> (r: Result<
        Vec<UNMember>,
        BuildError,
    >)
        ensures
            r matches Ok(v) ==> un_from_document_s(*doc, countries.items@) == Ok::<_, BuildError>(
                members_views(v@),
            ),
            r matches Err(e) ==> un_from_document_s(*doc, countries.items@) == Err::<
                Seq<UNMemberG>,
                BuildError,
            >(e),
    {
        let sel = match Selector::parse(".country div>h2") {
            Some(s) => s,
            None => {
                return Err(BuildError::BadSelector);
            },
        };
        let els = doc.select(&sel);
        let ghost elsv = crate::dom::derefs_of(els@);
        let n = els.len();
        let mut nations: Vec<UNMember> = Vec::new();
        let mut i: usize = 0;
        proof {
            assert(members_views(nations@) =~= Seq::<UNMemberG>::empty());
            assert(members_views(nations@) + un_members_at(elsv, 0, countries.items@)
                =~= un_members_at(elsv, 0, countries.items@));
        }
        while i < n
            invariant
                0 <= i <= n,
                members_views(nations@) + un_members_at(elsv, i as int, countries.items@)
                    == un_members_at(elsv, 0, countries.items@),
            decreases n - i,
        {
            proof {
                assert(elsv[i as int] == *els@[i as int]);
            }
            let texts = els[i].texts();
            let title = crate::text::concat_strings(&texts);
            let trimmed = crate::text::trim_str(title.as_str());
            let id: Option<Identifier> = match countries.find_exact(trimmed) {
                Some(j) => Some(countries.items[j].0.clone()),
                None => None,
            };
            let ghost prev = members_views(nations@);
            let member = UNMember::new(title, id);
            let ghost mv = member@;
            nations.push(member);
            proof {
                assert(members_views(nations@) =~= prev.push(mv));
                assert((prev + (seq![mv] + un_members_at(elsv, i + 1, countries.items@))) =~= (
                prev.push(mv) + un_members_at(elsv, i + 1, countries.items@)));
            }
            i += 1;
        }
        if nations.len() == 0 {
            proof {
                assert(un_members_at(elsv, 0, countries.items@).len() == 0);
            }
            return Err(BuildError::EmptyInput);
        }
        proof {
            assert(un_members_at(elsv, n as int, countries.items@).len() == 0);
            assert(members_views(nations@) =~= un_members_at(elsv, 0, countries.items@));
        }
        Ok(nations)
    }
}

} // verus!

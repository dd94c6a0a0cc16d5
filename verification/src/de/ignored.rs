//! Reading over values.
use vstd::prelude::*;
use crate::de::any::{lemma_any, Event, EventView};
use crate::de::compound::{lemma_closed, OptionForm};
use crate::de::list::{lemma_has_element, CommaSeparated, KeyForm};
use crate::de::names::law_no_struct_name;
use crate::de::{DeView, Deserializer};
use crate::error::{outcome, Error, ErrorView};
use crate::parse::ident::lemma_identifier;
use crate::parse::space::{lemma_comma, lemma_skip_ws};

verus! {

impl DeView {
    /// Whether `later` is this deserializer further on, by at least one byte.
    pub open spec fn advances_to(self, later: DeView) -> bool {
        self.leads_to(later) && self.bytes.at < later.bytes.at
    }

    /// Reading over a value, whatever it is.
    pub open spec fn ignored(self) -> (DeView, Result<(), ErrorView>)
        decreases self.bytes.input.len() - self.bytes.at, 0nat,
        when self.wf()
    {
        let (de, event) = self.any();
        proof {
            lemma_any(self);
        }
        match event {
            Err(e) => (de, Err(e)),
            Ok(EventView::Option(form)) => if form == OptionForm::Absent {
                (de, Ok(()))
            } else {
                let (after, result) = de.ignored();
                after.end_option(form, result)
            },
            Ok(EventView::Singleton(_)) => {
                let (value, before) = de.singleton_value();
                proof {
                    lemma_skip_ws(de.bytes);
                }
                match before {
                    Err(e) => (value, Err(e)),
                    Ok(before) => {
                        let (after, result) = value.ignored();
                        (after.allowing(before), result)
                    },
                }
            },
            Ok(EventView::Sequence) => {
                let (after, result) = de.ignored_elements(CommaSeparated::fresh(']' as u8));
                after.end_seq(result)
            },
            Ok(EventView::Tuple) => {
                let (after, result) = de.ignored_elements(CommaSeparated::fresh(')' as u8));
                after.end_tuple(true, result)
            },
            Ok(EventView::Mapping) => {
                let (after, result) = de.ignored_entries(CommaSeparated::fresh('}' as u8));
                after.end_map(result)
            },
            Ok(EventView::Struct) => {
                let (after, result) = de.ignored_entries(CommaSeparated::fresh(')' as u8));
                after.end_struct(Seq::empty(), true, result)
            },
            Ok(EventView::Newtype) => {
                let (after, result) = de.ignored();
                after.end_any_newtype(result)
            },
            Ok(_) => (de, Ok(())),
        }
    }

    /// Reading over the elements that are left of a list. Each takes at least one byte.
    pub open spec fn ignored_elements(self, list: CommaSeparated) -> (
        DeView,
        Result<(), ErrorView>,
    )
        decreases self.bytes.input.len() - self.bytes.at, 1nat,
        when self.wf()
    {
        let (element, more) = self.has_element(list);
        proof {
            lemma_has_element(self, list);
        }
        match more {
            Err(e) => (element, Err(e)),
            Ok(more) => if !more {
                (element, Ok(()))
            } else {
                let (after, read) = element.ignored();
                let (next, rest, result) = after.end_element(list, read);
                match result {
                    Err(e) => (next, Err(e)),
                    Ok(_) => if self.advances_to(next) {
                        next.ignored_elements(rest)
                    } else {
                        (next, Ok(()))
                    },
                }
            },
        }
    }

    /// Reading over the key of an entry.
    pub open spec fn ignored_key(self, form: KeyForm) -> (DeView, Result<(), ErrorView>)
        decreases self.bytes.input.len() - self.bytes.at, 1nat,
        when self.wf()
    {
        match form {
            KeyForm::Value => self.ignored(),
            KeyForm::Identifier => {
                let (after, name) = self.identifier();
                match name {
                    Err(e) => (after, Err(e)),
                    Ok(_) => (after, Ok(())),
                }
            },
        }
    }

    /// Reading over the entries that are left of a list. Each takes at least one byte.
    pub open spec fn ignored_entries(self, list: CommaSeparated) -> (DeView, Result<(), ErrorView>)
        decreases self.bytes.input.len() - self.bytes.at, 2nat,
        when self.wf()
    {
        let (entry, key) = self.next_key(list);
        proof {
            lemma_has_element(self, list);
        }
        match key {
            Err(e) => (entry, Err(e)),
            Ok(None) => (entry, Ok(())),
            Ok(Some(form)) => {
                let (named, read) = entry.ignored_key(form);
                match read {
                    Err(e) => (named, Err(e)),
                    Ok(_) => {
                        let (value, colon) = named.colon();
                        match colon {
                            Err(e) => (value, Err(e)),
                            Ok(_) => if !self.advances_to(value) {
                                (value, Ok(()))
                            } else {
                                let (after, read) = value.ignored();
                                let (next, rest, result) = after.end_element(list, read);
                                match result {
                                    Err(e) => (next, Err(e)),
                                    Ok(_) => if self.advances_to(next) {
                                        next.ignored_entries(rest)
                                    } else {
                                        (next, Ok(()))
                                    },
                                }
                            },
                        }
                    },
                }
            },
        }
    }
}

/// What reading over a value, or a list of them, does to a deserializer: it moves forward, and what
/// is allowed for newtypes of any kind stays.
pub open spec fn reads_over(de: DeView, later: DeView) -> bool {
    &&& de.leads_to(later)
    &&& later.any_newtype == de.any_newtype
}

/// Reading over a value only moves forward, past at least one byte where there is one. It unwraps no
/// newtype variant, and what is allowed for newtypes of any kind stays, also where it fails.
pub proof fn lemma_ignored(de: DeView)
    requires
        de.wf(),
    ensures
        reads_over(de, de.ignored().0),
        !de.ignored().0.newtype_variant,
        de.ignored().1 is Ok ==> de.bytes.at < de.ignored().0.bytes.at,
    decreases de.bytes.input.len() - de.bytes.at, 0nat,
{
    lemma_any(de);
    let (inner, event) = de.any();
    match event {
        Ok(EventView::Option(form)) => {
            if form != OptionForm::Absent {
                lemma_ignored(inner);
                lemma_skip_ws(inner.ignored().0.bytes);
            }
        },
        Ok(EventView::Singleton(_)) => {
            lemma_skip_ws(inner.bytes);
            let (value, before) = inner.singleton_value();
            if before is Ok {
                lemma_ignored(value);
            }
        },
        Ok(EventView::Sequence) => {
            let list = CommaSeparated::fresh(']' as u8);
            lemma_ignored_elements(inner, list);
            let (after, result) = inner.ignored_elements(list);
            lemma_closed(after, true, ']', ErrorView::ExpectedArrayEnd, result);
        },
        Ok(EventView::Tuple) => {
            let list = CommaSeparated::fresh(')' as u8);
            lemma_ignored_elements(inner, list);
            let (after, result) = inner.ignored_elements(list);
            lemma_closed(after, true, ')', ErrorView::ExpectedStructLikeEnd, result);
        },
        Ok(EventView::Mapping) => {
            let list = CommaSeparated::fresh('}' as u8);
            lemma_ignored_entries(inner, list);
            let (after, result) = inner.ignored_entries(list);
            lemma_closed(after, true, '}', ErrorView::ExpectedMapEnd, result);
        },
        Ok(EventView::Struct) => {
            let list = CommaSeparated::fresh(')' as u8);
            lemma_ignored_entries(inner, list);
            let (after, result) = inner.ignored_entries(list);
            law_no_struct_name(
                match result {
                    Err(e) => e,
                    Ok(_) => ErrorView::Eof,
                },
            );
            lemma_closed(after, true, ')', ErrorView::ExpectedStructLikeEnd, result);
        },
        Ok(EventView::Newtype) => {
            lemma_ignored(inner);
            lemma_skip_ws(inner.ignored().0.bytes);
        },
        _ => {},
    }
}

/// Reading over the elements of a list only moves forward.
proof fn lemma_ignored_elements(de: DeView, list: CommaSeparated)
    requires
        de.wf(),
        !de.newtype_variant,
    ensures
        reads_over(de, de.ignored_elements(list).0),
        !de.ignored_elements(list).0.newtype_variant,
    decreases de.bytes.input.len() - de.bytes.at, 1nat,
{
    lemma_has_element(de, list);
    let (element, more) = de.has_element(list);
    if more == Ok::<bool, ErrorView>(true) {
        lemma_ignored(element);
        let (after, read) = element.ignored();
        lemma_comma(after.bytes);
        let (next, rest, result) = after.end_element(list, read);
        if result is Ok {
            lemma_ignored_elements(next, rest);
        }
    }
}

/// Reading over a key only moves forward, past at least one byte where there is one.
proof fn lemma_ignored_key(de: DeView, form: KeyForm)
    requires
        de.wf(),
        !de.newtype_variant,
    ensures
        reads_over(de, de.ignored_key(form).0),
        !de.ignored_key(form).0.newtype_variant,
        de.ignored_key(form).1 is Ok ==> de.bytes.at < de.ignored_key(form).0.bytes.at,
    decreases de.bytes.input.len() - de.bytes.at, 1nat,
{
    match form {
        KeyForm::Value => {
            lemma_ignored(de);
        },
        KeyForm::Identifier => {
            lemma_identifier(de.bytes);
        },
    }
}

/// Reading a colon only moves forward.
proof fn lemma_colon(de: DeView)
    requires
        de.wf(),
    ensures
        de.leads_to(de.colon().0),
        de.colon().0 == de.reading(de.colon().0.bytes),
{
    lemma_skip_ws(de.bytes);
    let spaced = de.bytes.skip_ws().0;
    if spaced.at < spaced.input.len() {
        lemma_skip_ws(spaced.moved(spaced.at + 1));
    }
}

/// Reading over the entries of a list only moves forward.
proof fn lemma_ignored_entries(de: DeView, list: CommaSeparated)
    requires
        de.wf(),
        !de.newtype_variant,
    ensures
        reads_over(de, de.ignored_entries(list).0),
        !de.ignored_entries(list).0.newtype_variant,
    decreases de.bytes.input.len() - de.bytes.at, 2nat,
{
    lemma_has_element(de, list);
    let (entry, key) = de.next_key(list);
    if let Ok(Some(form)) = key {
        lemma_ignored_key(entry, form);
        let (named, read) = entry.ignored_key(form);
        if read is Ok {
            lemma_colon(named);
            let (value, colon) = named.colon();
            if colon is Ok {
                lemma_ignored(value);
                let (after, read) = value.ignored();
                lemma_comma(after.bytes);
                let (next, rest, result) = after.end_element(list, read);
                if result is Ok {
                    lemma_ignored_entries(next, rest);
                }
            }
        }
    }
}

impl<'de> Deserializer<'de> {
    /// Reads a value that is not kept, up to its content where it holds others.
    pub fn deserialize_ignored_any(&mut self) -> (found: Result<Event<'de>, Error>)
        requires
            old(self)@.wf(),
        ensures
            final(self)@.wf(),
            (final(self)@, outcome(found)) == old(self)@.any(),
    {
        self.deserialize_any()
    }

    /// Reads over a value, whatever it is.
    pub fn ignore_any(&mut self) -> (done: Result<(), Error>)
        requires
            old(self)@.wf(),
        ensures
            final(self)@.wf(),
            (final(self)@, outcome(done)) == old(self)@.ignored(),
        decreases old(self)@.bytes.input.len() - old(self)@.bytes.at, 0nat,
    {
        proof {
            lemma_any(self@);
            reveal_strlit("");
            assert(""@ =~= Seq::<char>::empty());
        }
        let event = self.deserialize_ignored_any()?;
        match event {
            Event::Option(form) => {
                if let OptionForm::Absent = form {
                    return Ok(());
                }
                let visited = self.ignore_any();
                self.end_option(form, visited)
            },
            Event::Singleton(map) => {
                proof {
                    lemma_skip_ws(self@.bytes);
                }
                let before = map.next_value_seed(self)?;
                let visited = self.ignore_any();
                map.end_value(self, before, visited)
            },
            Event::Sequence => {
                let visited = self.ignore_elements(']' as u8);
                self.end_seq(visited)
            },
            Event::Tuple => {
                let visited = self.ignore_elements(')' as u8);
                self.end_tuple(true, visited)
            },
            Event::Mapping => {
                let visited = self.ignore_entries('}' as u8);
                self.end_map(visited)
            },
            Event::Struct => {
                let visited = self.ignore_entries(')' as u8);
                self.end_struct("", true, visited)
            },
            Event::Newtype => {
                let visited = self.ignore_any();
                self.end_any_newtype(visited)
            },
            _ => Ok(()),
        }
    }

    /// Reads over the elements of a list.
    fn ignore_elements(&mut self, terminator: u8) -> (done: Result<(), Error>)
        requires
            old(self)@.wf(),
            !old(self)@.newtype_variant,
        ensures
            final(self)@.wf(),
            (final(self)@, outcome(done)) == old(self)@.ignored_elements(
                CommaSeparated::fresh(terminator),
            ),
        decreases old(self)@.bytes.input.len() - old(self)@.bytes.at, 1nat,
    {
        let mut list = CommaSeparated::new(terminator);
        loop
            invariant
                self@.wf(),
                old(self)@.leads_to(self@),
                self@.ignored_elements(list) == old(self)@.ignored_elements(
                    CommaSeparated::fresh(terminator),
                ),
            decreases self@.bytes.input.len() - self@.bytes.at,
        {
            proof {
                lemma_has_element(self@, list);
            }
            if !list.next_element_seed(self)? {
                return Ok(());
            }
            proof {
                lemma_ignored(self@);
                lemma_comma(self@.ignored().0.bytes);
            }
            let visited = self.ignore_any();
            list.end_element(self, visited)?;
        }
    }

    /// Reads over the key of an entry.
    fn ignore_key(&mut self, form: KeyForm) -> (done: Result<(), Error>)
        requires
            old(self)@.wf(),
        ensures
            final(self)@.wf(),
            (final(self)@, outcome(done)) == old(self)@.ignored_key(form),
        decreases old(self)@.bytes.input.len() - old(self)@.bytes.at, 1nat,
    {
        match form {
            KeyForm::Identifier => {
                self.deserialize_identifier()?;
                Ok(())
            },
            KeyForm::Value => self.ignore_any(),
        }
    }

    /// Reads over the entries of a list.
    fn ignore_entries(&mut self, terminator: u8) -> (done: Result<(), Error>)
        requires
            old(self)@.wf(),
            !old(self)@.newtype_variant,
        ensures
            final(self)@.wf(),
            (final(self)@, outcome(done)) == old(self)@.ignored_entries(
                CommaSeparated::fresh(terminator),
            ),
        decreases old(self)@.bytes.input.len() - old(self)@.bytes.at, 2nat,
    {
        let mut list = CommaSeparated::new(terminator);
        loop
            invariant
                self@.wf(),
                !self@.newtype_variant,
                old(self)@.leads_to(self@),
                self@.ignored_entries(list) == old(self)@.ignored_entries(
                    CommaSeparated::fresh(terminator),
                ),
            decreases self@.bytes.input.len() - self@.bytes.at,
        {
            proof {
                lemma_has_element(self@, list);
            }
            let form = match list.next_key_seed(self)? {
                Some(form) => form,
                None => {
                    return Ok(());
                },
            };
            proof {
                lemma_ignored_key(self@, form);
                lemma_colon(self@.ignored_key(form).0);
            }
            self.ignore_key(form)?;
            list.next_value_seed(self)?;
            proof {
                lemma_ignored(self@);
                lemma_comma(self@.ignored().0.bytes);
            }
            let visited = self.ignore_any();
            list.end_element(self, visited)?;
        }
    }
}

} // verus!

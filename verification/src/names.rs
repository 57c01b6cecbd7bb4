use vstd::prelude::*;
use std::collections::HashMap;
use crate::text::{string_from_utf8_lossy, utf8_lossy};

verus! {

broadcast use vstd::std_specs::hash::group_hash_axioms;

/// The texts of a map of strings.
pub open spec fn text_map(m: Map<u64, String>) -> Map<u64, Seq<char>> {
    m.map_values(|s: String| s@)
}

/// Class names gathered from the UTF-8 and LOAD CLASS records of a dump.
pub struct ClassNames {
    /// name id -> text
    pub utf8: HashMap<u64, String>,
    /// class object id -> name id
    pub cls_name: HashMap<u64, u64>,
}

impl ClassNames {
    /// The texts, by name id.
    pub open spec fn texts(&self) -> Map<u64, Seq<char>> {
        text_map(self.utf8@)
    }

    /// The name id of each class object id.
    pub open spec fn classes(&self) -> Map<u64, u64> {
        self.cls_name@
    }

    pub fn new() -> (r: Self)
        ensures
            r.texts() == Map::<u64, Seq<char>>::empty(),
            r.classes() == Map::<u64, u64>::empty(),
    {
        let r = ClassNames { utf8: HashMap::new(), cls_name: HashMap::new() };
        assert(r.texts() =~= Map::<u64, Seq<char>>::empty());
        r
    }

    /// Records a UTF-8 record; a later record with the same id replaces an earlier one.
    pub fn add_utf8(&mut self, name_id: u64, text: &[u8])
        ensures
            final(self).texts() == old(self).texts().insert(name_id, utf8_lossy(text@)),
            final(self).classes() == old(self).classes(),
    {
        let s = string_from_utf8_lossy(text);
        self.utf8.insert(name_id, s);
        assert(self.texts() =~= old(self).texts().insert(name_id, utf8_lossy(text@)));
    }

    /// Records a LOAD CLASS record; a later record for the same class replaces an earlier one.
    pub fn add_load_class(&mut self, class_obj_id: u64, name_id: u64)
        ensures
            final(self).texts() == old(self).texts(),
            final(self).classes() == old(self).classes().insert(class_obj_id, name_id),
    {
        self.cls_name.insert(class_obj_id, name_id);
    }

    /// The recorded name text of a class, if both records are present.
    pub fn class_text(&self, cid: u64) -> (r: Option<&String>)
        ensures
            match r {
                Some(s) => self.classes().contains_key(cid) && self.texts().contains_key(
                    self.classes()[cid],
                ) && s@ == self.texts()[self.classes()[cid]],
                None => !(self.classes().contains_key(cid) && self.texts().contains_key(
                    self.classes()[cid],
                )),
            },
    {
        match self.cls_name.get(&cid) {
            Some(nid) => self.utf8.get(nid),
            None => None,
        }
    }
}

} // verus!

//! Descriptive metadata attached to a stored document.

use vstd::prelude::*;

verus! {

/// Metadata of a document: title, type, tags without repeats, creation time.
pub struct VectorMetadata {
    pub title: String,
    pub doc_type: String,
    pub tags: Vec<String>,
    pub timestamp: i64,
}

/// The tags as the contracts see them.
pub open spec fn tags_view(tags: Seq<String>) -> Seq<Seq<char>> {
    tags.map_values(|t: String| t@)
}

impl VectorMetadata {
    /// Metadata with no tags, stamped with `timestamp` (seconds since the
    /// Unix epoch, read from the clock by the caller).
    pub fn new(title: String, doc_type: String, timestamp: i64) -> (r: Self)
        ensures
            r.title@ == title@,
            r.doc_type@ == doc_type@,
            r.tags@.len() == 0,
            r.timestamp == timestamp,
    {
        VectorMetadata { title, doc_type, tags: Vec::new(), timestamp }
    }

    /// Appends `tag` unless it is already present.
    pub fn add_tag(&mut self, tag: String)
        ensures
            final(self).title == old(self).title,
            final(self).doc_type == old(self).doc_type,
            final(self).timestamp == old(self).timestamp,
            tags_view(final(self).tags@) == if tags_view(old(self).tags@).contains(tag@) {
                tags_view(old(self).tags@)
            } else {
                tags_view(old(self).tags@).push(tag@)
            },
    {
        let ghost before = tags_view(self.tags@);
        let present = self.has_tag(tag.as_str());
        if !present {
            self.tags.push(tag);
            assert(tags_view(self.tags@) =~= before.push(tag@));
        }
    }

    /// Is `tag` among the tags?
    pub fn has_tag(&self, tag: &str) -> (r: bool)
        ensures
            r == tags_view(self.tags@).contains(tag@),
    {
        let wanted: String = tag.to_owned();
        let mut i: usize = 0;
        while i < self.tags.len()
            invariant
                wanted@ == tag@,
                i <= self.tags@.len(),
                forall|j: int| 0 <= j < i ==> (#[trigger] self.tags@[j])@ != tag@,
            decreases self.tags@.len() - i,
        {
            if self.tags[i] == wanted {
                assert(tags_view(self.tags@)[i as int] == tag@);
                return true;
            }
            i = i + 1;
        }
        proof {
            if tags_view(self.tags@).contains(tag@) {
                let j = choose|j: int| 0 <= j < self.tags@.len() && tags_view(self.tags@)[j] == tag@;
                assert(self.tags@[j]@ == tag@);
            }
        }
        false
    }
}

} // verus!

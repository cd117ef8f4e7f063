//! The system catalog: MIME type to the handlers that installed descriptors
//! declare for it, in the order the descriptors were scanned.

use vstd::prelude::*;

use crate::desktop_entry::{DesktopEntry, EntryView};
use crate::handler::Handler;
use crate::mime_map::{map_get, map_wf, MimeMap};
use crate::mime_types::Mime;

verus! {

/// The handler names of the entries that declare `mime`, in entry order,
/// first occurrence kept.
pub open spec fn declared_handlers(entries: Seq<EntryView>, mime: Seq<char>) -> Seq<Seq<char>>
    decreases entries.len(),
{
    if entries.len() == 0 {
        Seq::empty()
    } else {
        let prev = declared_handlers(entries.drop_last(), mime);
        if entries.last().mimes.contains(mime) && !prev.contains(entries.last().file_name) {
            prev + seq![entries.last().file_name]
        } else {
            prev
        }
    }
}

/// A possibly-empty handler list as the map stores it: absent when empty.
pub open spec fn opt_of(s: Seq<Seq<char>>) -> Option<Seq<Seq<char>>> {
    if s.len() == 0 {
        None
    } else {
        Some(s)
    }
}

/// The aggregated system catalog. The first handler of a list is the one
/// from the highest-priority descriptor directory that declared the MIME
/// type.
#[derive(Debug)]
pub struct SystemApps(pub MimeMap);

impl Clone for SystemApps {
    fn clone(&self) -> (r: Self)
        ensures
            r.0@ == self.0@,
    {
        SystemApps(self.0.clone())
    }
}

impl SystemApps {
    /// An empty catalog.
    pub fn new() -> (r: SystemApps)
        ensures
            r.0@ =~= Seq::<crate::mime_map::MapEntry>::empty(),
            map_wf(r.0@),
    {
        SystemApps(MimeMap::new())
    }

    /// Aggregates parsed descriptors into the catalog: for every MIME
    /// type, the handlers of the entries that declare it, in the order
    /// the entries were given (scan order: highest-priority directory
    /// first), each handler listed once.
    pub fn populate(entries: &Vec<DesktopEntry>) -> (r: SystemApps)
        ensures
            map_wf(r.0@),
            forall|mime: Seq<char>|
                #[trigger] map_get(r.0@, mime) == opt_of(
                    declared_handlers(entries.deep_view(), mime),
                ),
    {
        let ghost ev = entries.deep_view();
        let n = entries.len();
        let mut map = MimeMap::new();
        let mut i: usize = 0;
        proof {
            assert forall|mime: Seq<char>| #[trigger] map_get(map@, mime) == opt_of(
                declared_handlers(ev.take(0), mime),
            ) by {
                assert(ev.take(0).len() == 0);
            }
        }
        while i < n
            invariant
                n == entries.len(),
                ev == entries.deep_view(),
                0 <= i <= n,
                map_wf(map@),
                forall|mime: Seq<char>|
                    #[trigger] map_get(map@, mime) == opt_of(declared_handlers(ev.take(i as int), mime)),
            decreases n - i,
        {
            let ghost e = ev[i as int];
            let m = entries[i].mimes.len();
            let mut j: usize = 0;
            proof {
                assert(ev.take(i as int + 1).drop_last() =~= ev.take(i as int));
                assert(ev.take(i as int + 1).last() == ev[i as int]);
                assert(ev[i as int] == entries@[i as int].deep_view());
                assert(e.mimes.len() == m);
                assert forall|mime: Seq<char>| !(#[trigger] e.mimes.take(0).contains(mime)) by {
                    assert(e.mimes.take(0).len() == 0);
                }
            }
            while j < m
                invariant
                    n == entries.len(),
                    ev == entries.deep_view(),
                    0 <= i < n,
                    e == ev[i as int],
                    m == e.mimes.len(),
                    m == entries@[i as int].mimes@.len(),
                    0 <= j <= m,
                    map_wf(map@),
                    forall|mime: Seq<char>|
                        #[trigger] map_get(map@, mime) == opt_of(
                            if e.mimes.take(j as int).contains(mime) {
                                declared_handlers(ev.take(i as int + 1), mime)
                            } else {
                                declared_handlers(ev.take(i as int), mime)
                            },
                        ),
                decreases m - j,
            {
                let k = &entries[i].mimes[j];
                let h = Handler::assume_valid(entries[i].file_name.clone());
                let ghost kv = k@;
                let ghost fnm = e.file_name;
                let ghost prev = declared_handlers(ev.take(i as int), kv);
                let ghost full = declared_handlers(ev.take(i as int + 1), kv);
                let ghost mappre = map@;
                proof {
                    assert(e.mimes[j as int] == kv);
                    assert(h@ == fnm);
                    assert(e.mimes.contains(kv));
                    // the entry declares kv, so the longer prefix appends
                    // its handler unless it is already listed
                    assert(ev.take(i as int + 1).last() == e);
                    assert(ev.take(i as int + 1).drop_last() =~= ev.take(i as int));
                    assert(full == (if prev.contains(fnm) {
                        prev
                    } else {
                        prev + seq![fnm]
                    }));
                    assert(full.contains(fnm)) by {
                        if !prev.contains(fnm) {
                            assert(full[full.len() - 1] == fnm);
                        }
                    }
                }
                map.push_handler(k, h);
                proof {
                    assert forall|mime: Seq<char>| #[trigger] map_get(map@, mime) == opt_of(
                        if e.mimes.take(j as int + 1).contains(mime) {
                            declared_handlers(ev.take(i as int + 1), mime)
                        } else {
                            declared_handlers(ev.take(i as int), mime)
                        },
                    ) by {
                        if mime == kv {
                            assert(e.mimes.take(j as int + 1)[j as int] == kv);
                            assert(e.mimes.take(j as int + 1).contains(kv));
                            if e.mimes.take(j as int).contains(kv) {
                                // already recorded for this entry: the list
                                // holds the handler, so the push was a no-op
                                assert(map_get(mappre, kv) == opt_of(full));
                                assert(full.len() > 0);
                                assert(map_get(mappre, kv) == Some(full));
                                assert(map_get(map@, kv) == Some(full));
                            } else {
                                assert(map_get(mappre, kv) == opt_of(prev));
                                if prev.len() == 0 {
                                    assert(map_get(mappre, kv) is None);
                                    assert(map_get(map@, kv) == Some(seq![fnm]));
                                    assert(!prev.contains(fnm));
                                    assert(full =~= seq![fnm]);
                                } else {
                                    assert(map_get(mappre, kv) == Some(prev));
                                    if prev.contains(fnm) {
                                        assert(map_get(map@, kv) == Some(prev));
                                        assert(full == prev);
                                    } else {
                                        assert(map_get(map@, kv) == Some(prev.push(fnm)));
                                        assert(prev.push(fnm) =~= prev + seq![fnm]);
                                    }
                                }
                            }
                        } else {
                            assert(map_get(map@, mime) == map_get(mappre, mime));
                            assert(e.mimes.take(j as int + 1).contains(mime) == e.mimes.take(
                                j as int,
                            ).contains(mime)) by {
                                if e.mimes.take(j as int + 1).contains(mime) {
                                    let t = choose|t: int|
                                        0 <= t < j + 1 && #[trigger] e.mimes.take(j as int + 1)[t]
                                            == mime;
                                    if t < j {
                                        assert(e.mimes.take(j as int)[t] == mime);
                                    } else {
                                        assert(e.mimes[j as int] == mime);
                                    }
                                }
                                if e.mimes.take(j as int).contains(mime) {
                                    let t = choose|t: int|
                                        0 <= t < j && #[trigger] e.mimes.take(j as int)[t] == mime;
                                    assert(e.mimes.take(j as int + 1)[t] == mime);
                                }
                            }
                        }
                    }
                }
                j = j + 1;
            }
            proof {
                assert(e.mimes.take(m as int) =~= e.mimes);
                assert forall|mime: Seq<char>| #[trigger] map_get(map@, mime) == opt_of(
                    declared_handlers(ev.take(i as int + 1), mime),
                ) by {
                    if !e.mimes.contains(mime) {
                        assert(declared_handlers(ev.take(i as int + 1), mime)
                            == declared_handlers(ev.take(i as int), mime));
                    }
                }
            }
            i = i + 1;
        }
        proof {
            assert(ev.take(n as int) =~= ev);
        }
        SystemApps(map)
    }

    /// All handlers declared for `mime`, in catalog order.
    pub fn get_handlers(&self, mime: &Mime) -> (r: Option<&Vec<Handler>>)
        ensures
            match r {
                Some(v) => map_get(self.0@, mime@) == Some(v.deep_view()),
                None => map_get(self.0@, mime@) is None,
            },
    {
        self.0.get_list(mime.0.as_str())
    }

    /// The catalog's default handler for `mime`: the first one declared.
    pub fn get_handler(&self, mime: &Mime) -> (r: Option<Handler>)
        requires
            map_wf(self.0@),
        ensures
            match r {
                Some(h) => map_get(self.0@, mime@) matches Some(v) && v.len() > 0 && v[0] == h@,
                None => map_get(self.0@, mime@) is None,
            },
    {
        match self.0.get_list(mime.0.as_str()) {
            Some(v) => {
                proof {
                    crate::mime_map::lemma_map_get_key_index(self.0@, mime@);
                }
                Some(v[0].clone())
            },
            None => None,
        }
    }
}

} // verus!

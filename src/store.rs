//! A link store over the in-process backend: every create, resolve and delete
//! makes its round trips to the backend and follows the decisions of
//! [`LinkHandler`].
use vstd::prelude::*;

use crate::backend::MemoryBackend;
use crate::codec::{code_of, lemma_encode_injective};
use crate::error::LinkError;
use crate::handler::{CreateLink, Link, LinkHandler};

verus! {

/// Whether `code` is the code of one of the counter values `1..=counter` that
/// can be encoded, that is, whether a create may have handed it out.
pub open spec fn was_issued(counter: nat, code: Seq<char>) -> bool {
    exists|n: nat| 1 <= n <= counter && n <= usize::MAX && #[trigger] code_of(n) == code
}

/// What a successful create did, going from `before` to `after` for `url` and
/// returning `link`: it took the next counter value, whose code had never been
/// stored, and stored `url` under that code.
pub open spec fn created(before: LinkStore, after: LinkStore, url: Seq<char>, link: Link) -> bool {
    &&& after.counter() == before.counter() + 1
    &&& after.counter() <= usize::MAX
    &&& link.code@ == code_of(after.counter())
    &&& link.url@ == url
    &&& !before.contents().contains_key(link.code@)
    &&& after.contents() == before.contents().insert(link.code@, url)
}

/// Links kept in a [`MemoryBackend`].
pub struct LinkStore {
    backend: MemoryBackend,
}

impl LinkStore {
    /// The backend counter: the number of counter values consumed so far.
    pub closed spec fn counter(&self) -> nat {
        self.backend.counter_value()
    }

    /// The stored links, from codes to URLs.
    pub closed spec fn contents(&self) -> Map<Seq<char>, Seq<char>> {
        self.backend.contents()
    }

    /// The backend is well formed and every stored code was issued.
    pub closed spec fn wf(&self) -> bool {
        &&& self.backend.wf()
        &&& forall|k: Seq<char>| #[trigger]
            self.contents().contains_key(k) ==> was_issued(self.counter(), k)
    }

    /// An empty store whose counter stands at 0.
    pub fn new() -> (r: Self)
        ensures
            r.wf(),
            r.counter() == 0,
            r.contents() == Map::<Seq<char>, Seq<char>>::empty(),
    {
        LinkStore { backend: MemoryBackend::new() }
    }

    /// Assigns a fresh code to `payload.url` and stores the link. It fails with
    /// `CounterIncrementFailed`, storing nothing, once the counter cannot take
    /// a next value that can be encoded; the value it took is then lost.
    pub fn create(&mut self, payload: CreateLink) -> (r: Result<Link, LinkError>)
        requires
            old(self).wf(),
        ensures
            final(self).wf(),
            r is Ok <==> old(self).counter() < usize::MAX,
            match r {
                Ok(link) => created(*old(self), *final(self), payload.url@, link),
                Err(e) => {
                    &&& e == LinkError::CounterIncrementFailed
                    &&& final(self).contents() == old(self).contents()
                    &&& final(self).counter() == if old(self).counter() < u64::MAX {
                        old(self).counter() + 1
                    } else {
                        old(self).counter()
                    }
                },
            },
    {
        let ghost before = *self;
        let ghost url = payload.url@;
        let counter = self.backend.increment();
        proof {
            assert forall|k: Seq<char>| #[trigger]
                self.contents().contains_key(k) implies was_issued(self.counter(), k) by {
                assert(before.contents().contains_key(k));
                let m = choose|m: nat|
                    1 <= m <= before.counter() && m <= usize::MAX && #[trigger] code_of(m) == k;
                assert(code_of(m) == k);
            }
        }
        match LinkHandler::create(payload, counter) {
            Ok(link) => {
                let ghost n = self.counter();
                let ghost code = link.code@;
                proof {
                    if before.contents().contains_key(code) {
                        let m = choose|m: nat|
                            1 <= m <= before.counter() && m <= usize::MAX && #[trigger] code_of(m)
                                == code;
                        lemma_encode_injective(m as usize, n as usize);
                    }
                }
                self.backend.set(link.code.clone(), link.url.clone());
                proof {
                    assert forall|k: Seq<char>| #[trigger]
                        self.contents().contains_key(k) implies was_issued(self.counter(), k) by {
                        if k == code {
                            assert(code_of(n) == k);
                        } else {
                            assert(before.contents().contains_key(k));
                            let m = choose|m: nat|
                                1 <= m <= before.counter() && m <= usize::MAX && #[trigger] code_of(
                                    m,
                                ) == k;
                            assert(code_of(m) == k);
                        }
                    }
                }
                LinkHandler::finish_create(link, Ok(()))
            },
            Err(e) => Err(e),
        }
    }

    /// The link stored under `code`, or `NotFound`.
    pub fn get(&self, code: String) -> (r: Result<Link, LinkError>)
        requires
            self.wf(),
        ensures
            match r {
                Ok(link) => {
                    &&& self.contents().contains_key(code@)
                    &&& link.code@ == code@
                    &&& link.url@ == self.contents()[code@]
                },
                Err(e) => e == LinkError::NotFound && !self.contents().contains_key(code@),
            },
    {
        let read = self.backend.get(&code);
        LinkHandler::get(code, Ok(read))
    }

    /// Removes the link stored under `code`, if there is one.
    pub fn delete(&mut self, code: String) -> (r: Result<(), LinkError>)
        requires
            old(self).wf(),
        ensures
            final(self).wf(),
            r is Ok,
            final(self).counter() == old(self).counter(),
            final(self).contents() == old(self).contents().remove(code@),
    {
        let ghost before = *self;
        self.backend.delete(&code);
        proof {
            assert forall|k: Seq<char>| #[trigger]
                self.contents().contains_key(k) implies was_issued(self.counter(), k) by {
                assert(before.contents().contains_key(k));
            }
        }
        LinkHandler::delete(Ok(()))
    }
}

/// Codes handed out by two successful creates are distinct, whatever happened
/// to the store between them, as long as its counter did not go back.
pub proof fn lemma_create_unique(
    s0: LinkStore,
    s1: LinkStore,
    s2: LinkStore,
    s3: LinkStore,
    url1: Seq<char>,
    url2: Seq<char>,
    link1: Link,
    link2: Link,
)
    requires
        created(s0, s1, url1, link1),
        s1.counter() <= s2.counter(),
        created(s2, s3, url2, link2),
    ensures
        link1.code@ != link2.code@,
{
    lemma_encode_injective(s1.counter() as usize, s3.counter() as usize);
}

/// After a create returns a link, the store maps the link's code to the URL
/// that was given, so resolving the code returns that URL.
pub proof fn lemma_create_then_get(s0: LinkStore, s1: LinkStore, url: Seq<char>, link: Link)
    requires
        created(s0, s1, url, link),
    ensures
        s1.contents().contains_key(link.code@),
        s1.contents()[link.code@] == url,
{
}

/// A code that no create can have handed out is not stored, so resolving it
/// gives `NotFound`.
pub proof fn lemma_unissued_code_misses(s: LinkStore, code: Seq<char>)
    requires
        s.wf(),
        !was_issued(s.counter(), code),
    ensures
        !s.contents().contains_key(code),
{
}

} // verus!

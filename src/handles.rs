use vstd::prelude::*;

verus! {

/// Misuse of a handle by foreign code.
#[derive(Debug, PartialEq, Eq, Clone, Copy, Structural)]
pub enum HandleError {
    /// The handle was never issued, or its object was already released.
    StaleHandle,
    /// The handle was already released once.
    DoubleRelease,
}

/// Native objects held on behalf of foreign code, each behind an opaque
/// handle. Handle `h` names slot `h - 1`; slots are never reused, so handles
/// increase and no handle is issued twice.
pub struct HandleRegistry<T> {
    slots: Vec<Option<T>>,
}

/// A handle that the registry with these slots has issued.
pub open spec fn issued<T>(s: Seq<Option<T>>, h: u64) -> bool {
    1 <= h <= s.len()
}

/// What resolving `h` gives.
pub open spec fn resolve_spec<T>(s: Seq<Option<T>>, h: u64) -> Result<T, HandleError> {
    if issued(s, h) && s[h - 1] is Some {
        Ok(s[h - 1]->Some_0)
    } else {
        Err(HandleError::StaleHandle)
    }
}

/// The slots after releasing `h`, and the outcome.
pub open spec fn release_spec<T>(s: Seq<Option<T>>, h: u64) -> (Seq<Option<T>>, Result<
    T,
    HandleError,
>) {
    if !issued(s, h) {
        (s, Err(HandleError::StaleHandle))
    } else if s[h - 1] is None {
        (s, Err(HandleError::DoubleRelease))
    } else {
        (s.update(h - 1, None), Ok(s[h - 1]->Some_0))
    }
}

/// The slots after registering `o`, and its handle.
pub open spec fn register_spec<T>(s: Seq<Option<T>>, o: T) -> (Seq<Option<T>>, u64) {
    (s.push(Some(o)), (s.len() + 1) as u64)
}

impl<T> HandleRegistry<T> {
    pub closed spec fn view(&self) -> Seq<Option<T>> {
        self.slots@
    }

    pub fn new() -> (r: Self)
        ensures
            r.view() == Seq::<Option<T>>::empty(),
    {
        HandleRegistry { slots: Vec::new() }
    }

    /// Takes ownership of `o` and returns a handle never issued before.
    pub fn register(&mut self, o: T) -> (h: u64)
        requires
            old(self).view().len() < u64::MAX,
        ensures
            (final(self).view(), h) == register_spec(old(self).view(), o),
            !issued(old(self).view(), h),
    {
        self.slots.push(Some(o));
        self.slots.len() as u64
    }

    /// The object behind `h`, where `h` is live.
    pub fn resolve(&self, h: u64) -> (r: Result<&T, HandleError>)
        ensures
            match resolve_spec(self.view(), h) {
                Ok(o) => r matches Ok(x) && *x == o,
                Err(e) => r == Err::<&T, HandleError>(e),
            },
    {
        if h == 0 || h > self.slots.len() as u64 {
            return Err(HandleError::StaleHandle);
        }
        match &self.slots[(h - 1) as usize] {
            Some(o) => Ok(o),
            None => Err(HandleError::StaleHandle),
        }
    }

    /// Ends the association of `h` and hands its object back.
    pub fn release(&mut self, h: u64) -> (r: Result<T, HandleError>)
        ensures
            (final(self).view(), r) == release_spec(old(self).view(), h),
    {
        if h == 0 || h > self.slots.len() as u64 {
            return Err(HandleError::StaleHandle);
        }
        let i = (h - 1) as usize;
        if self.slots[i].is_none() {
            return Err(HandleError::DoubleRelease);
        }
        let mut taken: Option<T> = None;
        let ghost before = self.slots@;
        self.slots.set_and_swap(i, &mut taken);
        proof {
            assert(self.slots@ =~= before.update(i as int, None));
        }
        match taken {
            Some(o) => Ok(o),
            None => Err(HandleError::DoubleRelease),
        }
    }

    /// How many handles have been issued.
    pub fn issued_count(&self) -> (r: usize)
        ensures
            r == self.view().len(),
    {
        self.slots.len()
    }
}

/// The lifecycle of a handle: right after `register(o)` the handle resolves
/// to `o`; releasing it gives `o` back; from then on it resolves to
/// `StaleHandle`, and a second release is a `DoubleRelease`.
pub proof fn lemma_handle_lifecycle<T>(s: Seq<Option<T>>, o: T)
    requires
        s.len() < u64::MAX,
    ensures
        ({
            let (s1, h) = register_spec(s, o);
            let (s2, r1) = release_spec(s1, h);
            let (s3, r2) = release_spec(s2, h);
            &&& resolve_spec(s1, h) == Ok::<T, HandleError>(o)
            &&& r1 == Ok::<T, HandleError>(o)
            &&& resolve_spec(s2, h) == Err::<T, HandleError>(HandleError::StaleHandle)
            &&& r2 == Err::<T, HandleError>(HandleError::DoubleRelease)
            &&& s3 == s2
        }),
{
}

/// Registering leaves every earlier handle as it was.
pub proof fn lemma_register_keeps_others<T>(s: Seq<Option<T>>, o: T, g: u64)
    requires
        s.len() < u64::MAX,
        issued(s, g),
    ensures
        resolve_spec(register_spec(s, o).0, g) == resolve_spec(s, g),
{
}

} // verus!

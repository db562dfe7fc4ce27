use vstd::prelude::*;
use crate::timestamp::Product;

verus! {

/// One call made on an observer.
#[derive(Debug, PartialEq, Eq)]
pub enum Event<D> {
    Open(Product),
    Show(D),
    Give(D),
    Shut(Product),
}

/// The calls that present each datum of `data` by reference.
pub open spec fn shown<D>(data: Seq<D>) -> Seq<Event<D>> {
    data.map_values(|d: D| Event::Show(d))
}

/// The calls that hand over each datum of `data`.
pub open spec fn given<D>(data: Seq<D>) -> Seq<Event<D>> {
    data.map_values(|d: D| Event::Give(d))
}

/// `e` presents data, by reference or by ownership.
pub open spec fn is_data<D>(e: Event<D>) -> bool {
    e is Show || e is Give
}

/// `s` is one punctuated batch at `time`: an open, then data only, then one shut.
pub open spec fn is_bracket<D>(s: Seq<Event<D>>, time: Product) -> bool {
    &&& s.len() >= 2
    &&& s[0] == Event::<D>::Open(time)
    &&& s.last() == Event::<D>::Shut(time)
    &&& forall|k: int| 0 < k < s.len() - 1 ==> is_data(#[trigger] s[k])
}

/// A receiver of punctuated batches of data.  `trace` is the sequence of calls
/// made on it so far.
pub trait Observer {
    type Data;

    spec fn trace(&self) -> Seq<Event<Self::Data>>;

    /// Begins a batch at `time`.
    fn open(&mut self, time: &Product)
        ensures
            final(self).trace() == old(self).trace().push(Event::Open(*time)),
    ;

    /// Presents `data` by reference.
    fn show(&mut self, data: &Self::Data)
        ensures
            final(self).trace() == old(self).trace().push(Event::Show(*data)),
    ;

    /// Hands `data` over.
    fn give(&mut self, data: Self::Data)
        ensures
            final(self).trace() == old(self).trace().push(Event::Give(data)),
    ;

    /// Ends the batch at `time`.
    fn shut(&mut self, time: &Product)
        ensures
            final(self).trace() == old(self).trace().push(Event::Shut(*time)),
    ;
}

/// An observer that keeps every call made on it.
pub struct Recorder<D> {
    log: Vec<Event<D>>,
}

impl<D: Copy> Recorder<D> {
    pub fn new() -> (r: Recorder<D>)
        ensures
            r.trace() == Seq::<Event<D>>::empty(),
    {
        Recorder { log: Vec::new() }
    }

    /// The calls made so far, in order.
    pub fn events(&self) -> (r: &Vec<Event<D>>)
        ensures
            r@ == self.trace(),
    {
        &self.log
    }
}

impl<D: Copy> Observer for Recorder<D> {
    type Data = D;

    closed spec fn trace(&self) -> Seq<Event<D>> {
        self.log@
    }

    fn open(&mut self, time: &Product) {
        self.log.push(Event::Open(*time));
    }

    fn show(&mut self, data: &D) {
        self.log.push(Event::Show(*data));
    }

    fn give(&mut self, data: D) {
        self.log.push(Event::Give(data));
    }

    fn shut(&mut self, time: &Product) {
        self.log.push(Event::Shut(*time));
    }
}

/// A boxed observer forwards every call to the observer in the box.
impl<O: Observer> Observer for Box<O> {
    type Data = O::Data;

    open spec fn trace(&self) -> Seq<Event<O::Data>> {
        (**self).trace()
    }

    fn open(&mut self, time: &Product) {
        (**self).open(time);
    }

    fn show(&mut self, data: &O::Data) {
        (**self).show(data);
    }

    fn give(&mut self, data: O::Data) {
        (**self).give(data);
    }

    fn shut(&mut self, time: &Product) {
        (**self).shut(time);
    }
}

/// One batch in progress on an observer: it was opened at `time`, and the
/// observer comes back only through `close`, which shuts the batch.
pub struct ObserverSession<O: Observer> {
    observer: O,
    time: Product,
    before: Ghost<Seq<Event<O::Data>>>,
}

impl<O: Observer> ObserverSession<O> {
    /// The time of the batch.
    pub closed spec fn time(&self) -> Product {
        self.time
    }

    /// The calls made on the observer before the batch was opened.
    pub closed spec fn before(&self) -> Seq<Event<O::Data>> {
        self.before@
    }

    /// The calls made on the observer since the batch was opened, the open
    /// included.
    pub closed spec fn batch(&self) -> Seq<Event<O::Data>> {
        self.observer.trace().skip(self.before@.len() as int)
    }

    /// The observer's calls are those from before the batch, the open, and
    /// data only.
    pub closed spec fn wf(&self) -> bool {
        &&& self.observer.trace().len() > self.before@.len()
        &&& self.observer.trace().take(self.before@.len() as int) == self.before@
        &&& self.observer.trace()[self.before@.len() as int] == Event::<O::Data>::Open(self.time)
        &&& forall|k: int|
            self.before@.len() < k < self.observer.trace().len() ==> is_data(
                #[trigger] self.observer.trace()[k],
            )
    }

    /// Presents `data` by reference within the batch.
    pub fn show(&mut self, data: &O::Data)
        requires
            old(self).wf(),
        ensures
            final(self).wf(),
            final(self).time() == old(self).time(),
            final(self).before() == old(self).before(),
            final(self).batch() == old(self).batch().push(Event::Show(*data)),
    {
        self.observer.show(data);
        proof {
            assert(self.observer.trace().take(self.before@.len() as int) =~= self.before@);
            assert(self.batch() =~= old(self).batch().push(Event::Show(*data)));
        }
    }

    /// Hands `data` over within the batch.
    pub fn give(&mut self, data: O::Data)
        requires
            old(self).wf(),
        ensures
            final(self).wf(),
            final(self).time() == old(self).time(),
            final(self).before() == old(self).before(),
            final(self).batch() == old(self).batch().push(Event::Give(data)),
    {
        let ghost d = data;
        self.observer.give(data);
        proof {
            assert(self.observer.trace().take(self.before@.len() as int) =~= self.before@);
            assert(self.batch() =~= old(self).batch().push(Event::Give(d)));
        }
    }

    /// Shuts the batch and hands the observer back: its calls are then those
    /// from before, followed by exactly one bracketed batch at the session's time.
    pub fn close(self) -> (r: O)
        requires
            self.wf(),
        ensures
            r.trace() == self.before() + self.batch().push(Event::Shut(self.time())),
            is_bracket(r.trace().skip(self.before().len() as int), self.time()),
    {
        let ObserverSession { mut observer, time, before } = self;
        observer.shut(&time);
        proof {
            let n = before@.len() as int;
            let s = observer.trace().skip(n);
            assert(observer.trace() =~= before@ + s);
            assert forall|k: int| 0 < k < s.len() - 1 implies is_data(#[trigger] s[k]) by {
                assert(s[k] == observer.trace()[n + k]);
            }
        }
        observer
    }
}

/// Batches on any observer.
pub trait ObserverSessionExt: Observer + Sized {
    /// Opens a batch at `time` and returns the session that will shut it.
    fn session(self, time: &Product) -> (r: ObserverSession<Self>)
        ensures
            r.wf(),
            r.time() == *time,
            r.before() == self.trace(),
            r.batch() == seq![Event::<Self::Data>::Open(*time)],
    ;

    /// One batch at `time` that presents each of `data` by reference.
    fn show_at(&mut self, time: &Product, data: &Vec<Self::Data>)
        ensures
            final(self).trace() == old(self).trace().push(Event::Open(*time)) + shown(data@).push(
                Event::Shut(*time),
            ),
    ;

    /// One batch at `time` that hands over each of `data`.
    fn give_at(&mut self, time: &Product, data: Vec<Self::Data>)
        ensures
            final(self).trace() == old(self).trace().push(Event::Open(*time)) + given(data@).push(
                Event::Shut(*time),
            ),
    ;
}

impl<O: Observer> ObserverSessionExt for O {
    fn session(self, time: &Product) -> (r: ObserverSession<O>) {
        let ghost before = self.trace();
        let mut observer = self;
        observer.open(time);
        let r = ObserverSession { observer, time: *time, before: Ghost(before) };
        proof {
            assert(r.observer.trace().take(before.len() as int) =~= before);
            assert(r.batch() =~= seq![Event::<O::Data>::Open(*time)]);
        }
        r
    }

    fn show_at(&mut self, time: &Product, data: &Vec<O::Data>) {
        self.open(time);
        let ghost start = self.trace();
        let mut i: usize = 0;
        while i < data.len()
            invariant
                i <= data@.len(),
                self.trace() == start + shown(data@.take(i as int)),
            decreases data@.len() - i,
        {
            self.show(&data[i]);
            proof {
                assert(data@.take(i + 1) =~= data@.take(i as int).push(data@[i as int]));
                assert(shown(data@.take(i + 1)) =~= shown(data@.take(i as int)).push(
                    Event::Show(data@[i as int]),
                ));
            }
            i += 1;
        }
        self.shut(time);
        proof {
            assert(data@.take(data@.len() as int) =~= data@);
        }
    }

    fn give_at(&mut self, time: &Product, data: Vec<O::Data>) {
        self.open(time);
        let ghost start = self.trace();
        let ghost all = data@;
        for d in it: data
            invariant
                it.seq() == all,
                self.trace() == start + given(all.take(it.index() as int)),
        {
            let ghost k = it.index();
            self.give(d);
            proof {
                assert(all.take(k + 1) =~= all.take(k as int).push(all[k as int]));
                assert(given(all.take(k + 1)) =~= given(all.take(k as int)).push(
                    Event::Give(all[k as int]),
                ));
            }
        }
        self.shut(time);
        proof {
            assert(all.take(all.len() as int) =~= all);
        }
    }
}

/// Routes each datum to one of several observers, chosen by its hash modulo
/// their number, while every open and shut reaches all of them.
pub struct ExchangeObserver<O: Observer, H: Fn(&O::Data) -> u64> {
    observers: Vec<O>,
    hash_func: H,
    log: Ghost<Seq<Event<O::Data>>>,
}

/// `o` is `p` after one more call `e`.
pub open spec fn one_more<O: Observer>(p: O, o: O, e: Event<O::Data>) -> bool {
    o.trace() == p.trace().push(e)
}

/// `after` is `before` where the observer at `k` received one more call `e`
/// and the others none.
pub open spec fn delivered_to<O: Observer>(
    before: Seq<O>,
    after: Seq<O>,
    k: int,
    e: Event<O::Data>,
) -> bool {
    &&& after.len() == before.len()
    &&& one_more(before[k], after[k], e)
    &&& forall|j: int| 0 <= j < before.len() && j != k ==> #[trigger] after[j] == before[j]
}

/// `after` is `before` where every observer received one more call `e`.
pub open spec fn delivered_to_all<O: Observer>(
    before: Seq<O>,
    after: Seq<O>,
    e: Event<O::Data>,
) -> bool {
    &&& after.len() == before.len()
    &&& forall|k: int| 0 <= k < before.len() ==> one_more(#[trigger] before[k], after[k], e)
}

impl<O: Observer, H: Fn(&O::Data) -> u64> ExchangeObserver<O, H> {
    #[verifier::type_invariant]
    spec fn inv(&self) -> bool {
        &&& self.observers@.len() > 0
        &&& forall|d: &O::Data| call_requires(self.hash_func, (d,))
    }

    /// The observers that the data are routed to.
    pub closed spec fn targets(&self) -> Seq<O> {
        self.observers@
    }

    pub closed spec fn hash(&self) -> H {
        self.hash_func
    }

    /// The index of the observer that receives a datum whose hash is `h`.
    pub open spec fn route(&self, h: u64) -> int {
        (h % (self.targets().len() as u64)) as int
    }

    pub fn new(observers: Vec<O>, hash_func: H) -> (r: Self)
        requires
            observers@.len() > 0,
            forall|d: &O::Data| call_requires(hash_func, (d,)),
        ensures
            r.targets() == observers@,
            r.hash() == hash_func,
            r.trace() == Seq::<Event<O::Data>>::empty(),
    {
        ExchangeObserver { observers, hash_func, log: Ghost(Seq::empty()) }
    }

    pub fn observers(&self) -> (r: &Vec<O>)
        ensures
            r@ == self.targets(),
    {
        &self.observers
    }

    /// Hands the observers back.
    pub fn into_observers(self) -> (r: Vec<O>)
        ensures
            r@ == self.targets(),
    {
        self.observers
    }

    /// Makes one call on every observer: an open at `time` when `opening`,
    /// a shut at `time` otherwise.
    #[verifier::loop_isolation(false)]
    fn broadcast(&mut self, time: &Product, opening: bool)
        ensures
            final(self).hash() == old(self).hash(),
            delivered_to_all(
                old(self).targets(),
                final(self).targets(),
                if opening {
                    Event::<O::Data>::Open(*time)
                } else {
                    Event::<O::Data>::Shut(*time)
                },
            ),
            final(self).trace() == old(self).trace().push(
                if opening {
                    Event::<O::Data>::Open(*time)
                } else {
                    Event::<O::Data>::Shut(*time)
                },
            ),
    {
        let ghost e = if opening {
            Event::<O::Data>::Open(*time)
        } else {
            Event::<O::Data>::Shut(*time)
        };
        proof {
            use_type_invariant(&*self);
        }
        let mut i: usize = 0;
        while i < self.observers.len()
            invariant
                i <= self.observers@.len(),
                self.observers@.len() == old(self).observers@.len(),
                self.hash_func == old(self).hash_func,
                self.log == old(self).log,
                forall|k: int|
                    0 <= k < i ==> one_more(#[trigger] old(self).observers@[k], self.observers@[k], e),
                forall|k: int|
                    i <= k < self.observers@.len() ==> #[trigger] self.observers@[k] == old(
                        self,
                    ).observers@[k],
            decreases self.observers@.len() - i,
        {
            if opening {
                self.observers[i].open(time);
            } else {
                self.observers[i].shut(time);
            }
            i += 1;
        }
        self.log = Ghost(self.log@.push(e));
    }
}

impl<O: Observer, H: Fn(&O::Data) -> u64> Observer for ExchangeObserver<O, H> {
    type Data = O::Data;

    closed spec fn trace(&self) -> Seq<Event<O::Data>> {
        self.log@
    }

    /// Opens a batch at `time` on every observer.
    fn open(&mut self, time: &Product)
        ensures
            final(self).hash() == old(self).hash(),
            delivered_to_all(old(self).targets(), final(self).targets(), Event::<O::Data>::Open(*time)),
            final(self).trace() == old(self).trace().push(Event::Open(*time)),
    {
        self.broadcast(time, true);
    }

    /// Shuts the batch at `time` on every observer.
    fn shut(&mut self, time: &Product)
        ensures
            final(self).hash() == old(self).hash(),
            delivered_to_all(old(self).targets(), final(self).targets(), Event::<O::Data>::Shut(*time)),
            final(self).trace() == old(self).trace().push(Event::Shut(*time)),
    {
        self.broadcast(time, false);
    }

    /// Presents `data` to the one observer that its hash selects.
    fn show(&mut self, data: &O::Data)
        ensures
            final(self).hash() == old(self).hash(),
            exists|h: u64|
                call_ensures(old(self).hash(), (data,), h) && delivered_to(
                    old(self).targets(),
                    final(self).targets(),
                    old(self).route(h),
                    Event::Show(*data),
                ),
            final(self).trace() == old(self).trace().push(Event::Show(*data)),
    {
        proof {
            use_type_invariant(&*self);
        }
        let h = (self.hash_func)(data);
        let dst = h % (self.observers.len() as u64);
        self.observers[dst as usize].show(data);
        self.log = Ghost(self.log@.push(Event::Show(*data)));
        assert(delivered_to(old(self).targets(), self.targets(), old(self).route(h), Event::Show(*data)));
    }

    /// Hands `data` to the one observer that its hash selects.
    fn give(&mut self, data: O::Data)
        ensures
            final(self).hash() == old(self).hash(),
            exists|h: u64|
                call_ensures(old(self).hash(), (&data,), h) && delivered_to(
                    old(self).targets(),
                    final(self).targets(),
                    old(self).route(h),
                    Event::Give(data),
                ),
            final(self).trace() == old(self).trace().push(Event::Give(data)),
    {
        proof {
            use_type_invariant(&*self);
        }
        let ghost d = data;
        let h = (self.hash_func)(&data);
        let dst = h % (self.observers.len() as u64);
        self.observers[dst as usize].give(data);
        self.log = Ghost(self.log@.push(Event::Give(d)));
        assert(delivered_to(old(self).targets(), self.targets(), old(self).route(h), Event::Give(d)));
    }
}

} // verus!

//! The pipeline: interceptors in an explicit order, each of which may change a message or end
//! its way.

use crate::model::{
    CtxView, ExchangeCtx, HttpRequest, HttpResponse, RequestView, ResponseView,
};
use crate::tools::{MapLocalRule, MapLocalView, Tool};
use vstd::prelude::*;

verus! {

/// What an interceptor wants done with a message.
#[derive(Debug)]
pub enum InterceptAction {
    /// Go on with the next interceptor.
    Continue,
    /// Answer with an empty response of this status.
    Block { status: u16 },
    /// Wait for the decision of the operator.
    Hold,
    /// Answer with this response, without asking the origin.
    ShortCircuit(HttpResponse),
    /// Answer with the file of this rule, without asking the origin.
    ServeFile(MapLocalRule),
}

/// What an action says.
pub enum ActionView {
    Continue,
    Block { status: u16 },
    Hold,
    ShortCircuit(ResponseView),
    ServeFile(MapLocalView),
}

impl View for InterceptAction {
    type V = ActionView;

    open spec fn view(&self) -> ActionView {
        match *self {
            InterceptAction::Continue => ActionView::Continue,
            InterceptAction::Block { status } => ActionView::Block { status },
            InterceptAction::Hold => ActionView::Hold,
            InterceptAction::ShortCircuit(r) => ActionView::ShortCircuit(r@),
            InterceptAction::ServeFile(r) => ActionView::ServeFile(r@),
        }
    }
}

impl Clone for InterceptAction {
    fn clone(&self) -> (r: Self)
        ensures
            r@ == self@,
    {
        match self {
            InterceptAction::Continue => InterceptAction::Continue,
            InterceptAction::Block { status } => InterceptAction::Block { status: *status },
            InterceptAction::Hold => InterceptAction::Hold,
            InterceptAction::ShortCircuit(r) => InterceptAction::ShortCircuit(r.clone()),
            InterceptAction::ServeFile(r) => InterceptAction::ServeFile(r.clone()),
        }
    }
}

/// An interceptor of requests.
pub trait RequestInterceptor: Send + Sync {
    /// The interceptor may turn the request `before` into `after` and ask for `action`. One that
    /// does not say more may do anything.
    open spec fn request_step(
        &self,
        before: RequestView,
        ctx: CtxView,
        after: RequestView,
        action: ActionView,
    ) -> bool {
        true
    }

    fn on_request(&self, req: &mut HttpRequest, ctx: &ExchangeCtx) -> (action: InterceptAction)
        ensures
            self.request_step(old(req)@, ctx@, final(req)@, action@),
    ;
}

/// An interceptor of responses.
pub trait ResponseInterceptor: Send + Sync {
    /// The interceptor may turn the response `before` into `after` and ask for `action`. One that
    /// does not say more may do anything.
    open spec fn response_step(
        &self,
        before: ResponseView,
        ctx: CtxView,
        after: ResponseView,
        action: ActionView,
    ) -> bool {
        true
    }

    fn on_response(&self, resp: &mut HttpResponse, ctx: &ExchangeCtx) -> (action: InterceptAction)
        ensures
            self.response_step(old(resp)@, ctx@, final(resp)@, action@),
    ;
}

/// The interceptors of a chain, one after the other until one does not say `Continue`, may turn
/// `before` into `after` and ask for `action`.
pub open spec fn request_run<R: RequestInterceptor>(
    chain: Seq<R>,
    before: RequestView,
    ctx: CtxView,
    after: RequestView,
    action: ActionView,
) -> bool
    decreases chain.len(),
{
    if chain.len() == 0 {
        after == before && action is Continue
    } else {
        exists|mid: RequestView, first: ActionView| #[trigger]
            chain[0].request_step(before, ctx, mid, first) && (if first is Continue {
                request_run(chain.skip(1), mid, ctx, after, action)
            } else {
                after == mid && action == first
            })
    }
}

/// As `request_run`, for responses.
pub open spec fn response_run<S: ResponseInterceptor>(
    chain: Seq<S>,
    before: ResponseView,
    ctx: CtxView,
    after: ResponseView,
    action: ActionView,
) -> bool
    decreases chain.len(),
{
    if chain.len() == 0 {
        after == before && action is Continue
    } else {
        exists|mid: ResponseView, first: ActionView| #[trigger]
            chain[0].response_step(before, ctx, mid, first) && (if first is Continue {
                response_run(chain.skip(1), mid, ctx, after, action)
            } else {
                after == mid && action == first
            })
    }
}

/// An ordered set of interceptors.
pub struct Pipeline<R = Tool, S = Tool> {
    request_interceptors: Vec<R>,
    response_interceptors: Vec<S>,
}

impl<R, S> Default for Pipeline<R, S> {
    fn default() -> (r: Self)
        ensures
            r.requests() == Seq::<R>::empty(),
            r.responses() == Seq::<S>::empty(),
    {
        Pipeline::new()
    }
}

impl<R, S> Pipeline<R, S> {
    /// The interceptors of requests, in order.
    pub closed spec fn requests(self) -> Seq<R> {
        self.request_interceptors@
    }

    /// The interceptors of responses, in order.
    pub closed spec fn responses(self) -> Seq<S> {
        self.response_interceptors@
    }

    /// A pipeline without interceptors.
    pub fn new() -> (r: Self)
        ensures
            r.requests() == Seq::<R>::empty(),
            r.responses() == Seq::<S>::empty(),
    {
        Pipeline { request_interceptors: Vec::new(), response_interceptors: Vec::new() }
    }

    /// The pipeline with one more interceptor of requests, as the last one.
    pub fn with_request_interceptor(self, i: R) -> (r: Self)
        ensures
            r.requests() == self.requests().push(i),
            r.responses() == self.responses(),
    {
        let mut p = self;
        p.request_interceptors.push(i);
        p
    }

    /// The pipeline with one more interceptor of responses, as the last one.
    pub fn with_response_interceptor(self, i: S) -> (r: Self)
        ensures
            r.requests() == self.requests(),
            r.responses() == self.responses().push(i),
    {
        let mut p = self;
        p.response_interceptors.push(i);
        p
    }
}

impl<R: RequestInterceptor, S: ResponseInterceptor> Pipeline<R, S> {
    /// Sends a request through the chain.
    pub fn process_request(&self, req: &mut HttpRequest, ctx: &ExchangeCtx) -> (action:
        InterceptAction)
        ensures
            request_run(self.requests(), old(req)@, ctx@, final(req)@, action@),
    {
        let action = self.request_from(req, ctx, 0);
        assert(self.requests().skip(0) =~= self.requests());
        action
    }

    fn request_from(&self, req: &mut HttpRequest, ctx: &ExchangeCtx, i: usize) -> (action:
        InterceptAction)
        requires
            i <= self.requests().len(),
        ensures
            request_run(self.requests().skip(i as int), old(req)@, ctx@, final(req)@, action@),
        decreases self.requests().len() - i,
    {
        let ghost before = req@;
        let ghost rest = self.requests().skip(i as int);
        if i == self.request_interceptors.len() {
            return InterceptAction::Continue;
        }
        let first = self.request_interceptors[i].on_request(req, ctx);
        let ghost mid = req@;
        assert(rest[0].request_step(before, ctx@, mid, first@));
        match first {
            InterceptAction::Continue => {
                let action = self.request_from(req, ctx, i + 1);
                assert(rest.skip(1) =~= self.requests().skip(i + 1));
                action
            },
            other => other,
        }
    }

    /// Sends a response through the chain.
    pub fn process_response(&self, resp: &mut HttpResponse, ctx: &ExchangeCtx) -> (action:
        InterceptAction)
        ensures
            response_run(self.responses(), old(resp)@, ctx@, final(resp)@, action@),
    {
        let action = self.response_from(resp, ctx, 0);
        assert(self.responses().skip(0) =~= self.responses());
        action
    }

    fn response_from(&self, resp: &mut HttpResponse, ctx: &ExchangeCtx, i: usize) -> (action:
        InterceptAction)
        requires
            i <= self.responses().len(),
        ensures
            response_run(self.responses().skip(i as int), old(resp)@, ctx@, final(resp)@, action@),
        decreases self.responses().len() - i,
    {
        let ghost before = resp@;
        let ghost rest = self.responses().skip(i as int);
        if i == self.response_interceptors.len() {
            return InterceptAction::Continue;
        }
        let first = self.response_interceptors[i].on_response(resp, ctx);
        let ghost mid = resp@;
        assert(rest[0].response_step(before, ctx@, mid, first@));
        match first {
            InterceptAction::Continue => {
                let action = self.response_from(resp, ctx, i + 1);
                assert(rest.skip(1) =~= self.responses().skip(i + 1));
                action
            },
            other => other,
        }
    }
}


/// How the run of a chain `a` goes on through a chain `b`: from where `a` left the request, if `a`
/// said `Continue`, else not at all.
pub open spec fn request_goes_on<R: RequestInterceptor>(
    b: Seq<R>,
    mid: RequestView,
    first: ActionView,
    ctx: CtxView,
    after: RequestView,
    action: ActionView,
) -> bool {
    if first is Continue {
        request_run(b, mid, ctx, after, action)
    } else {
        after == mid && action == first
    }
}

/// A chain runs in order: `a` and then `b` is a run of `a` that goes on through `b`.
pub proof fn law_request_chains_run_in_order<R: RequestInterceptor>(
    a: Seq<R>,
    b: Seq<R>,
    before: RequestView,
    ctx: CtxView,
    after: RequestView,
    action: ActionView,
)
    ensures
        request_run(a + b, before, ctx, after, action) <==> exists|
            mid: RequestView,
            first: ActionView,
        | #[trigger]
            request_run(a, before, ctx, mid, first) && request_goes_on(b, mid, first, ctx, after, action),
    decreases a.len(),
{
    if a.len() == 0 {
        assert(a + b =~= b);
        assert(request_run(a, before, ctx, before, ActionView::Continue));
    } else {
        assert((a + b).skip(1) =~= a.skip(1) + b);
        if request_run(a + b, before, ctx, after, action) {
            let (m, f) = choose|m: RequestView, f: ActionView| #[trigger]
                (a + b)[0].request_step(before, ctx, m, f) && (if f is Continue {
                    request_run((a + b).skip(1), m, ctx, after, action)
                } else {
                    after == m && action == f
                });
            assert(a[0].request_step(before, ctx, m, f));
            if f is Continue {
                law_request_chains_run_in_order(a.skip(1), b, m, ctx, after, action);
                let (mid, first) = choose|mid: RequestView, first: ActionView| #[trigger]
                    request_run(a.skip(1), m, ctx, mid, first) && request_goes_on(
                        b,
                        mid,
                        first,
                        ctx,
                        after,
                        action,
                    );
                assert(request_run(a, before, ctx, mid, first));
            } else {
                assert(request_run(a, before, ctx, m, f));
            }
        }
        if exists|mid: RequestView, first: ActionView| #[trigger]
            request_run(a, before, ctx, mid, first) && request_goes_on(b, mid, first, ctx, after, action) {
            let (mid, first) = choose|mid: RequestView, first: ActionView| #[trigger]
                request_run(a, before, ctx, mid, first) && request_goes_on(
                    b,
                    mid,
                    first,
                    ctx,
                    after,
                    action,
                );
            let (m, f) = choose|m: RequestView, f: ActionView| #[trigger]
                a[0].request_step(before, ctx, m, f) && (if f is Continue {
                    request_run(a.skip(1), m, ctx, mid, first)
                } else {
                    mid == m && first == f
                });
            assert((a + b)[0].request_step(before, ctx, m, f));
            if f is Continue {
                law_request_chains_run_in_order(a.skip(1), b, m, ctx, after, action);
            }
        }
    }
}

/// Once an interceptor says anything but `Continue`, no later one sees the request.
pub proof fn law_request_stops_at_first_answer<R: RequestInterceptor>(
    a: Seq<R>,
    b: Seq<R>,
    before: RequestView,
    ctx: CtxView,
    after: RequestView,
    action: ActionView,
)
    requires
        request_run(a, before, ctx, after, action),
        !(action is Continue),
    ensures
        request_run(a + b, before, ctx, after, action),
{
    law_request_chains_run_in_order(a, b, before, ctx, after, action);
}

/// A pipeline without interceptors lets a request through as it is.
pub proof fn law_empty_request_chain<R: RequestInterceptor>(
    before: RequestView,
    ctx: CtxView,
    after: RequestView,
    action: ActionView,
)
    ensures
        request_run(Seq::<R>::empty(), before, ctx, after, action) <==> (after == before
            && action is Continue),
{
}

/// How the run of a chain `a` goes on through a chain `b`: from where `a` left the response, if `a`
/// said `Continue`, else not at all.
pub open spec fn response_goes_on<R: ResponseInterceptor>(
    b: Seq<R>,
    mid: ResponseView,
    first: ActionView,
    ctx: CtxView,
    after: ResponseView,
    action: ActionView,
) -> bool {
    if first is Continue {
        response_run(b, mid, ctx, after, action)
    } else {
        after == mid && action == first
    }
}

/// A chain runs in order: `a` and then `b` is a run of `a` that goes on through `b`.
pub proof fn law_response_chains_run_in_order<R: ResponseInterceptor>(
    a: Seq<R>,
    b: Seq<R>,
    before: ResponseView,
    ctx: CtxView,
    after: ResponseView,
    action: ActionView,
)
    ensures
        response_run(a + b, before, ctx, after, action) <==> exists|
            mid: ResponseView,
            first: ActionView,
        | #[trigger]
            response_run(a, before, ctx, mid, first) && response_goes_on(b, mid, first, ctx, after, action),
    decreases a.len(),
{
    if a.len() == 0 {
        assert(a + b =~= b);
        assert(response_run(a, before, ctx, before, ActionView::Continue));
    } else {
        assert((a + b).skip(1) =~= a.skip(1) + b);
        if response_run(a + b, before, ctx, after, action) {
            let (m, f) = choose|m: ResponseView, f: ActionView| #[trigger]
                (a + b)[0].response_step(before, ctx, m, f) && (if f is Continue {
                    response_run((a + b).skip(1), m, ctx, after, action)
                } else {
                    after == m && action == f
                });
            assert(a[0].response_step(before, ctx, m, f));
            if f is Continue {
                law_response_chains_run_in_order(a.skip(1), b, m, ctx, after, action);
                let (mid, first) = choose|mid: ResponseView, first: ActionView| #[trigger]
                    response_run(a.skip(1), m, ctx, mid, first) && response_goes_on(
                        b,
                        mid,
                        first,
                        ctx,
                        after,
                        action,
                    );
                assert(response_run(a, before, ctx, mid, first));
            } else {
                assert(response_run(a, before, ctx, m, f));
            }
        }
        if exists|mid: ResponseView, first: ActionView| #[trigger]
            response_run(a, before, ctx, mid, first) && response_goes_on(b, mid, first, ctx, after, action) {
            let (mid, first) = choose|mid: ResponseView, first: ActionView| #[trigger]
                response_run(a, before, ctx, mid, first) && response_goes_on(
                    b,
                    mid,
                    first,
                    ctx,
                    after,
                    action,
                );
            let (m, f) = choose|m: ResponseView, f: ActionView| #[trigger]
                a[0].response_step(before, ctx, m, f) && (if f is Continue {
                    response_run(a.skip(1), m, ctx, mid, first)
                } else {
                    mid == m && first == f
                });
            assert((a + b)[0].response_step(before, ctx, m, f));
            if f is Continue {
                law_response_chains_run_in_order(a.skip(1), b, m, ctx, after, action);
            }
        }
    }
}

/// Once an interceptor says anything but `Continue`, no later one sees the response.
pub proof fn law_response_stops_at_first_answer<R: ResponseInterceptor>(
    a: Seq<R>,
    b: Seq<R>,
    before: ResponseView,
    ctx: CtxView,
    after: ResponseView,
    action: ActionView,
)
    requires
        response_run(a, before, ctx, after, action),
        !(action is Continue),
    ensures
        response_run(a + b, before, ctx, after, action),
{
    law_response_chains_run_in_order(a, b, before, ctx, after, action);
}

/// A pipeline without interceptors lets a response through as it is.
pub proof fn law_empty_response_chain<R: ResponseInterceptor>(
    before: ResponseView,
    ctx: CtxView,
    after: ResponseView,
    action: ActionView,
)
    ensures
        response_run(Seq::<R>::empty(), before, ctx, after, action) <==> (after == before
            && action is Continue),
{
}

/// An action says what is wanted, with the response or the rule that goes with it.
pub proof fn law_actions_are_seen(status: u16, r: HttpResponse, rule: MapLocalRule)
    ensures
        InterceptAction::Continue@ is Continue,
        (InterceptAction::Block { status })@ == (ActionView::Block { status }),
        InterceptAction::Hold@ is Hold,
        InterceptAction::ShortCircuit(r)@ == ActionView::ShortCircuit(r@),
        InterceptAction::ServeFile(rule)@ == ActionView::ServeFile(rule@),
{
}

} // verus!

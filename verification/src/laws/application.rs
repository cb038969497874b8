//! Laws of keeping the screen on.
use crate::application::{Inhibition, SpeedometerApplication};
use vstd::prelude::*;

verus! {

/// The application after activations whose requests, if they make one, get the
/// given answers.
pub open spec fn activated(app: SpeedometerApplication, answers: Seq<u32>) -> SpeedometerApplication
    decreases answers.len(),
{
    if answers.len() == 0 {
        app
    } else {
        activated(app.after_activation(answers[0]), answers.drop_first())
    }
}

/// How many of these activations make a request.
pub open spec fn requests(app: SpeedometerApplication, answers: Seq<u32>) -> nat
    decreases answers.len(),
{
    if answers.len() == 0 {
        0
    } else {
        requests(app.after_activation(answers[0]), answers.drop_first()) + (if app.request() is Some {
            1nat
        } else {
            0
        })
    }
}

/// A request asks that the device is not suspended and that its screen does not
/// go blank. Once one is granted, no further activation makes another, and its
/// cookie stays.
pub proof fn granted_request_is_the_only_one(app: SpeedometerApplication, answers: Seq<u32>)
    requires
        app.inhibit_cookie == 0,
        answers.len() > 0,
        answers[0] != 0,
    ensures
        app.request() == Some(Inhibition { suspend: true, idle: true }),
        requests(app, answers) == 1,
        activated(app, answers).inhibit_cookie == answers[0],
{
    lemma_nothing_more(app.after_activation(answers[0]), answers.drop_first());
}

proof fn lemma_nothing_more(app: SpeedometerApplication, answers: Seq<u32>)
    requires
        app.inhibit_cookie != 0,
    ensures
        requests(app, answers) == 0,
        activated(app, answers) == app,
    decreases answers.len(),
{
    if answers.len() > 0 {
        lemma_nothing_more(app, answers.drop_first());
    }
}

/// A refused request is made again by the next activation.
pub proof fn refused_request_is_made_again(app: SpeedometerApplication)
    requires
        app.request() is Some,
    ensures
        app.after_activation(0).request() is Some,
{
}

/// Whatever activations came before, a shutdown hands back the cookie that is in
/// force, if there is one, and a second shutdown hands back nothing.
pub proof fn cookies_are_released_once(app: SpeedometerApplication, answers: Seq<u32>)
    ensures
        ({
            let held = activated(app, answers);
            &&& held.inhibit_cookie != 0 ==> held.released() == Some(held.inhibit_cookie)
            &&& held.inhibit_cookie == 0 ==> held.released() is None
            &&& held.after_shutdown().inhibit_cookie == 0
            &&& held.after_shutdown().released() is None
        }),
        activated(app, answers).inhibit_cookie != 0 ==> activated(app, answers).inhibit_cookie == app.inhibit_cookie
            || answers.contains(activated(app, answers).inhibit_cookie),
    decreases answers.len(),
{
    if answers.len() > 0 {
        let rest = answers.drop_first();
        let next = app.after_activation(answers[0]);
        let cookie = activated(app, answers).inhibit_cookie;
        cookies_are_released_once(next, rest);
        assert(answers.contains(answers[0]));
        if rest.contains(cookie) {
            let i = choose|i: int| 0 <= i < rest.len() && rest[i] == cookie;
            assert(answers[i + 1] == cookie);
        }
    }
}

} // verus!

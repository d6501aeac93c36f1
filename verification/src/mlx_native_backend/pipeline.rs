//! Reading tokens off a model, one ahead or one by one.

use vstd::prelude::*;

verus! {

/// What the model gave.
pub enum Pulled<T> {
    Token(T),
    Failed(String),
    End,
}

/// What the reader does next.
pub enum Step<T> {
    /// Report this error.
    Fail(String),
    /// Pull a token first, and ask again.
    Pull,
    /// Pull the next token, then read this one.
    PullAndRead(T),
    /// Read this token.
    Read(T),
    /// There is nothing more.
    End,
}

/// Reads tokens off a model. With `pipeline` the next token is under way while the
/// current one is read. Without, a token is pulled only when it is asked for, so
/// that stopping at a token never computes the one behind it.
pub struct PipelinedIds<T> {
    pub cur: Option<T>,
    pub pending_err: Option<String>,
    pub pipeline: bool,
    pub needs_fetch: bool,
}

pub open spec fn failure_text(e: Option<String>) -> Option<Seq<char>> {
    match e {
        Some(s) => Some(s@),
        None => None,
    }
}

fn mlx_failure(e: String) -> (r: String)
    ensures
        r@ == "mlx: "@ + e@,
{
    crate::text::copy("mlx: ").concat(e.as_str())
}

impl<T> PipelinedIds<T> {
    /// Starts with the first token, which is pulled at once.
    pub fn new(first: Pulled<T>, pipeline: bool) -> (r: Self)
        ensures
            r.pipeline == pipeline,
            !r.needs_fetch,
            match first {
                Pulled::Token(t) => r.cur == Some(t) && r.pending_err is None,
                Pulled::Failed(e) => r.cur is None && failure_text(r.pending_err) == Some(
                    "mlx: "@ + e@,
                ),
                Pulled::End => r.cur is None && r.pending_err is None,
            },
    {
        match first {
            Pulled::Token(t) => PipelinedIds {
                cur: Some(t),
                pending_err: None,
                pipeline,
                needs_fetch: false,
            },
            Pulled::Failed(e) => PipelinedIds {
                cur: None,
                pending_err: Some(mlx_failure(e)),
                pipeline,
                needs_fetch: false,
            },
            Pulled::End => PipelinedIds {
                cur: None,
                pending_err: None,
                pipeline,
                needs_fetch: false,
            },
        }
    }

    /// What is done to get the next token. An error that is pending comes first.
    pub fn next(&mut self) -> (r: Step<T>)
        ensures
            final(self).pipeline == old(self).pipeline,
            final(self).needs_fetch == old(self).needs_fetch,
            failure_text(old(self).pending_err) matches Some(e) ==> {
                &&& r matches Step::Fail(s) && s@ == e
                &&& final(self).pending_err is None
                &&& final(self).cur == old(self).cur
            },
            old(self).pending_err is None ==> {
                &&& final(self).pending_err is None
                &&& if !old(self).pipeline && old(self).needs_fetch {
                    r is Pull && final(self).cur == old(self).cur
                } else {
                    &&& final(self).cur is None
                    &&& match old(self).cur {
                        Some(t) => if old(self).pipeline {
                            r == Step::PullAndRead(t)
                        } else {
                            r == Step::Read(t)
                        },
                        None => r is End,
                    }
                }
            },
    {
        match self.pending_err.take() {
            Some(e) => {
                return Step::Fail(e);
            },
            None => {},
        }
        if !self.pipeline && self.needs_fetch {
            return Step::Pull;
        }
        match self.cur.take() {
            Some(t) => if self.pipeline {
                Step::PullAndRead(t)
            } else {
                Step::Read(t)
            },
            None => Step::End,
        }
    }

    /// A token was pulled because it was asked for.
    pub fn fetched(&mut self, p: Pulled<T>)
        ensures
            final(self).pipeline == old(self).pipeline,
            !final(self).needs_fetch,
            match p {
                Pulled::Token(t) => final(self).cur == Some(t) && final(self).pending_err == old(
                    self,
                ).pending_err,
                Pulled::Failed(e) => final(self).cur is None && failure_text(
                    final(self).pending_err,
                ) == Some("mlx: "@ + e@),
                Pulled::End => final(self).cur is None && final(self).pending_err == old(
                    self,
                ).pending_err,
            },
    {
        self.needs_fetch = false;
        match p {
            Pulled::Token(t) => {
                self.cur = Some(t);
            },
            Pulled::Failed(e) => {
                self.cur = None;
                self.pending_err = Some(mlx_failure(e));
            },
            Pulled::End => {
                self.cur = None;
            },
        }
    }

    /// A token was read, with the next one pulled ahead. A token that could not be
    /// read ends the stream: what was pulled ahead is dropped.
    pub fn read_ahead(&mut self, ahead: Pulled<T>, ok: bool) -> (r: Result<(), String>)
        requires
            old(self).cur is None,
        ensures
            final(self).pipeline == old(self).pipeline,
            final(self).needs_fetch == old(self).needs_fetch,
            ok <==> r is Ok,
            r matches Err(e) ==> e@ == "mlx: eval failed"@,
            match ahead {
                Pulled::Token(t) => {
                    &&& final(self).cur == (if ok {
                        Some(t)
                    } else {
                        None
                    })
                    &&& final(self).pending_err == old(self).pending_err
                },
                Pulled::Failed(e) => final(self).cur is None && failure_text(
                    final(self).pending_err,
                ) == Some("mlx: "@ + e@),
                Pulled::End => final(self).cur is None && final(self).pending_err == old(
                    self,
                ).pending_err,
            },
    {
        match ahead {
            Pulled::Token(t) => {
                if ok {
                    self.cur = Some(t);
                }
            },
            Pulled::Failed(e) => {
                self.pending_err = Some(mlx_failure(e));
            },
            Pulled::End => {},
        }
        if ok {
            Ok(())
        } else {
            Err(crate::text::copy("mlx: eval failed"))
        }
    }

    /// A token was read by itself: the next one waits until it is asked for.
    pub fn read(&mut self, ok: bool) -> (r: Result<(), String>)
        ensures
            final(self).pipeline == old(self).pipeline,
            final(self).cur == old(self).cur,
            final(self).pending_err == old(self).pending_err,
            final(self).needs_fetch == (ok || old(self).needs_fetch),
            ok <==> r is Ok,
            r matches Err(e) ==> e@ == "mlx: eval failed"@,
    {
        if ok {
            self.needs_fetch = true;
            Ok(())
        } else {
            Err(crate::text::copy("mlx: eval failed"))
        }
    }
}

} // verus!

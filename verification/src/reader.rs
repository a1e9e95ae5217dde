//! The reader of a dictionary column.
//!
//! The reader decides what is read, what is evaluated and what is kept. The reading and the
//! evaluating are done by functions that its caller hands in: `R` is a reader of the values or
//! of the codes, `F` a handle on an array that is still being computed and can be shared by
//! cloning it, and `C` what a read of the codes gives. `D` is the type of the column, which
//! the reader only carries.
use std::ops::Range;

use vortex_mask::Mask;
use vstd::prelude::*;

use crate::cache::EvalCache;
use crate::expr::{ExprModel, Expression};
use crate::key::expression_key;
use crate::pushdown::split_expression_for_pushdown;

verus! {

/// What a reader has to know of how a dictionary column is stored.
#[derive(Debug, PartialEq, Eq)]
pub struct DictLayout<D> {
    /// The type of the column.
    pub dtype: D,
    /// The number of rows of the column.
    pub row_count: u64,
    /// The number of values in the dictionary.
    pub values_row_count: u64,
    /// Every value in the dictionary is known to occur in some row.
    pub all_values_referenced: bool,
}

/// The mask over `len` rows that includes all of them.
#[derive(Debug, Clone, Copy, PartialEq, Eq)]
pub struct AllTrue {
    pub len: usize,
}

/// A read that is asked of a reader: `expr` over the rows of `rows` that `mask` includes.
#[derive(Debug, PartialEq, Eq)]
pub struct ReadRequest<M> {
    pub rows: Range<u64>,
    pub expr: Expression,
    pub mask: M,
}

/// Why a reader could not be made.
#[derive(Debug, PartialEq, Eq)]
pub enum OpenError<E> {
    /// The dictionary holds more values than can be counted here.
    TooManyValues { rows: u64 },
    /// The values could not be opened.
    Values(E),
    /// The codes could not be opened.
    Codes(E),
}

/// An error, and what was being done when it came.
#[derive(Debug, PartialEq, Eq)]
pub struct ContextError<E> {
    pub context: String,
    pub source: E,
}

/// What is left to do of a projection once values and codes are there.
#[derive(Debug, PartialEq, Eq)]
pub struct ProjectionTail {
    pub all_values_referenced: bool,
    /// The part of the expression that runs on the rows.
    pub outer: Option<Expression>,
}

/// A projection under way.
#[derive(Debug, PartialEq, Eq)]
pub struct ProjectionPlan<F, C> {
    pub values: F,
    pub codes: C,
    pub tail: ProjectionTail,
}

/// A filter under way, over `len` rows.
#[derive(Debug, PartialEq, Eq)]
pub struct FilterPlan<F, C> {
    pub len: usize,
    pub values: F,
    pub codes: C,
}

/// A dictionary array: for each row a code, and for each code a value.
#[derive(Debug, PartialEq, Eq)]
pub struct DictArray<A> {
    pub codes: A,
    pub values: A,
    pub all_values_referenced: bool,
}

/// A reader of a dictionary column.
pub struct DictReader<D, R, F> {
    layout: DictLayout<D>,
    name: String,
    /// The number of values.
    values_len: usize,
    /// The values, once they have been asked for as a whole.
    values_array: Option<F>,
    /// For the key of each expression that was evaluated on the values, its place in `evals`.
    values_evals: EvalCache,
    evals: Vec<F>,
    values: R,
    codes: R,
}

impl<D, R, F> DictReader<D, R, F> {
    /// The places that are kept are places in `evals`, and the values can be counted.
    pub closed spec fn wf(self) -> bool {
        &&& self.values_len == self.layout.values_row_count
        &&& forall|key: Seq<u64>| #[trigger]
            crate::cache::cache_entries(self.values_evals).dom().contains(key)
                ==> crate::cache::cache_entries(self.values_evals)[key] < self.evals@.len()
    }

    /// How the column is stored.
    pub closed spec fn layout(self) -> DictLayout<D> {
        self.layout
    }

    /// The name of this reader.
    pub closed spec fn reader_name(self) -> Seq<char> {
        self.name@
    }

    /// The reader of the values.
    pub closed spec fn values_reader(self) -> R {
        self.values
    }

    /// The reader of the codes.
    pub closed spec fn codes_reader(self) -> R {
        self.codes
    }

    /// The array of all values, if it is kept.
    pub closed spec fn kept_values(self) -> Option<F> {
        self.values_array
    }

    /// The results on the values that are kept, by expression.
    pub closed spec fn kept_evals(self) -> Map<ExprModel, F> {
        Map::new(
            |e: ExprModel| crate::cache::cache_entries(self.values_evals).dom().contains(e.key()),
            |e: ExprModel|
                self.evals@[crate::cache::cache_entries(self.values_evals)[e.key()] as int],
        )
    }

    /// The two read the same column under the same name.
    pub open spec fn same_column(self, other: Self) -> bool {
        &&& self.layout() == other.layout()
        &&& self.reader_name() == other.reader_name()
        &&& self.values_reader() == other.values_reader()
        &&& self.codes_reader() == other.codes_reader()
    }

    /// The read of all values as they are.
    pub open spec fn values_request(self) -> ReadRequest<AllTrue> {
        ReadRequest {
            rows: Range { start: 0, end: self.layout().values_row_count },
            expr: Expression::Root,
            mask: AllTrue { len: self.layout().values_row_count as usize },
        }
    }
}

impl<D, R, F> DictReader<D, R, F> {
    /// A reader for the column that is stored as `layout` says. The readers of its values and
    /// codes are opened in that order, under the names `<name>.values` and `<name>.codes`, and
    /// after a failure nothing more is opened.
    pub fn try_new<E, V: FnOnce(String) -> Result<R, E>, C: FnOnce(String) -> Result<R, E>>(
        layout: DictLayout<D>,
        name: String,
        open_values: V,
        open_codes: C,
    ) -> (r: Result<Self, OpenError<E>>)
        requires
            layout.values_row_count <= usize::MAX ==> may_open(open_values, name@ + ".values"@),
            (exists|values: R| #[trigger] opened(open_values, name@ + ".values"@, Ok(values)))
                ==> may_open(open_codes, name@ + ".codes"@),
        ensures
            r is Err && r->Err_0 is TooManyValues <==> layout.values_row_count > usize::MAX,
            match r {
                Ok(reader) => {
                    &&& reader.wf()
                    &&& reader.layout() == layout
                    &&& reader.reader_name() == name@
                    &&& reader.kept_values() is None
                    &&& reader.kept_evals() == Map::<ExprModel, F>::empty()
                    &&& opened(open_values, name@ + ".values"@, Ok(reader.values_reader()))
                    &&& opened(open_codes, name@ + ".codes"@, Ok(reader.codes_reader()))
                },
                Err(OpenError::TooManyValues { rows }) => rows == layout.values_row_count,
                Err(OpenError::Values(error)) => opened(
                    open_values,
                    name@ + ".values"@,
                    Err(error),
                ),
                Err(OpenError::Codes(error)) => opened(open_codes, name@ + ".codes"@, Err(error))
                    && exists|values: R|
                    #[trigger] opened(open_values, name@ + ".values"@, Ok(values)),
            },
    {
        let rows: u64 = layout.values_row_count;
        if rows > usize::MAX as u64 {
            return Err(OpenError::TooManyValues { rows });
        }
        let values_len = rows as usize;
        let values_name = name.clone().concat(".values");
        let values = match open_values(values_name) {
            Ok(values) => values,
            Err(error) => {
                return Err(OpenError::Values(error));
            },
        };
        assert(opened(open_values, name@ + ".values"@, Ok(values)));
        let codes_name = name.clone().concat(".codes");
        let codes = match open_codes(codes_name) {
            Ok(codes) => codes,
            Err(error) => {
                return Err(OpenError::Codes(error));
            },
        };
        let reader = DictReader {
            layout,
            name,
            values_len,
            values_array: None,
            values_evals: EvalCache::new(),
            evals: Vec::new(),
            values,
            codes,
        };
        assert(reader.kept_evals() =~= Map::<ExprModel, F>::empty());
        Ok(reader)
    }

    /// The name of this reader.
    pub fn name(&self) -> (r: &str)
        ensures
            r@ == self.reader_name(),
    {
        self.name.as_str()
    }

    /// The type of the column.
    pub fn dtype(&self) -> (r: &D)
        ensures
            *r == self.layout().dtype,
    {
        &self.layout.dtype
    }

    /// The number of rows of the column.
    pub fn row_count(&self) -> (r: u64)
        ensures
            r == self.layout().row_count,
    {
        self.layout.row_count
    }

    /// Registers where the column can be split: where its codes can be.
    pub fn register_splits<E, G: FnOnce(&R) -> Result<(), E>>(&self, register: G) -> (r: Result<
        (),
        E,
    >)
        requires
            call_requires(register, (&self.codes_reader(),)),
        ensures
            call_ensures(register, (&self.codes_reader(),), r),
    {
        register(&self.codes)
    }

    /// The rows of `mask` that statistics cannot rule out: all of them. Reading the values
    /// only for an approximate answer costs more than it saves.
    pub fn pruning_evaluation(
        &self,
        _row_range: &Range<u64>,
        _expr: &Expression,
        mask: Mask,
    ) -> (r: Mask)
        ensures
            r == mask,
    {
        mask
    }

    /// The read of all values as they are.
    fn all_values(&self) -> (r: ReadRequest<AllTrue>)
        requires
            self.wf(),
        ensures
            r == self.values_request(),
    {
        ReadRequest {
            rows: 0..self.values_len as u64,
            expr: Expression::Root,
            mask: AllTrue { len: self.values_len },
        }
    }
}

impl<D, R, F: Clone> DictReader<D, R, F> {
    /// `array` is what reading all values gives.
    pub open spec fn reads_values<G: FnOnce(&R, ReadRequest<AllTrue>) -> F>(
        self,
        read: G,
        array: F,
    ) -> bool {
        call_ensures(read, (&self.values_reader(), self.values_request()), array)
    }

    /// `array` is a handle on all values: on the ones that are kept, or else on a new read.
    pub open spec fn finds_values<G: FnOnce(&R, ReadRequest<AllTrue>) -> F>(
        self,
        read: G,
        array: F,
    ) -> bool {
        match self.kept_values() {
            Some(kept) => cloned(kept, array),
            None => self.reads_values(read, array),
        }
    }

    /// Asking for all values turns `before` into `after` and gives `array`: what is kept is
    /// given; where nothing is kept, the values are read, made shareable and kept.
    pub open spec fn values_step<
        G: FnOnce(&R, ReadRequest<AllTrue>) -> F,
        S: FnOnce(F) -> F,
    >(before: Self, after: Self, read: G, share: S, array: F) -> bool {
        &&& after.same_column(before)
        &&& after.kept_evals() == before.kept_evals()
        &&& after.kept_values() matches Some(kept) && cloned(kept, array)
        &&& before.kept_values() is Some ==> after.kept_values() == before.kept_values()
        &&& before.kept_values() is None ==> exists|raw: F|
            #![trigger before.reads_values(read, raw)]
            before.reads_values(read, raw) && call_ensures(
                share,
                (raw,),
                after.kept_values()->0,
            )
    }

    /// `result` is what `e` makes of the values: `e` is applied to a handle on all values, and
    /// the outcome is made shareable.
    pub open spec fn evaluates<
        G: FnOnce(&R, ReadRequest<AllTrue>) -> F,
        A: FnOnce(F, Expression) -> F,
        S: FnOnce(F) -> F,
    >(self, e: ExprModel, read: G, apply: A, share: S, result: F) -> bool {
        exists|array: F, expr: Expression, applied: F|
            #![trigger call_ensures(apply, (array, expr), applied)]
            expr@ == e && self.finds_values(read, array) && call_ensures(
                apply,
                (array, expr),
                applied,
            ) && call_ensures(share, (applied,), result)
    }

    /// Asking for `e` on the values turns `before` into `after` and gives `result`: what is
    /// kept for `e` is given; where nothing is, `e` is evaluated and the result is kept.
    pub open spec fn eval_step<
        G: FnOnce(&R, ReadRequest<AllTrue>) -> F,
        A: FnOnce(F, Expression) -> F,
        S: FnOnce(F) -> F,
    >(
        before: Self,
        after: Self,
        e: ExprModel,
        read: G,
        apply: A,
        share: S,
        result: F,
    ) -> bool {
        &&& after.same_column(before)
        &&& after.kept_values() == before.kept_values()
        &&& after.kept_evals().dom().contains(e)
        &&& cloned(after.kept_evals()[e], result)
        &&& before.kept_evals().dom().contains(e) ==> after.kept_evals() == before.kept_evals()
        &&& !before.kept_evals().dom().contains(e) ==> {
            &&& after.kept_evals() == before.kept_evals().insert(e, after.kept_evals()[e])
            &&& before.evaluates(e, read, apply, share, after.kept_evals()[e])
        }
    }

    /// All values may be asked for as they are: they may be read, where they are not kept.
    /// Where they are, nothing is asked of `read`, so that it is not called.
    pub open spec fn may_find_values<G: FnOnce(&R, ReadRequest<AllTrue>) -> F>(
        self,
        read: G,
    ) -> bool {
        self.kept_values() is None ==> call_requires(
            read,
            (&self.values_reader(), self.values_request()),
        )
    }

    /// All values may be asked for: where they are not kept, they may be read, and what was
    /// read may be made shareable. Where they are, nothing is asked of the functions, so that
    /// none is called.
    pub open spec fn may_take_values<
        G: FnOnce(&R, ReadRequest<AllTrue>) -> F,
        S: FnOnce(F) -> F,
    >(self, read: G, share: S) -> bool {
        &&& self.may_find_values(read)
        &&& self.kept_values() is None ==> forall|raw: F|
            self.reads_values(read, raw) ==> #[trigger] call_requires(share, (raw,))
    }

    /// `e` may be asked for on the values: where nothing is kept for it, all values may be asked
    /// for as they are, `e` may be applied to what is found, and the outcome may be made
    /// shareable. Where something is kept, nothing is asked of the functions, so that none is
    /// called.
    pub open spec fn may_evaluate<
        G: FnOnce(&R, ReadRequest<AllTrue>) -> F,
        A: FnOnce(F, Expression) -> F,
        S: FnOnce(F) -> F,
    >(self, e: ExprModel, read: G, apply: A, share: S) -> bool {
        !self.kept_evals().dom().contains(e) ==> {
            &&& self.may_find_values(read)
            &&& forall|array: F, expr: Expression|
                expr@ == e && self.finds_values(read, array) ==> #[trigger] call_requires(
                    apply,
                    (array, expr),
                )
            &&& forall|array: F, expr: Expression, applied: F|
                expr@ == e && self.finds_values(read, array) && #[trigger] call_ensures(
                    apply,
                    (array, expr),
                    applied,
                ) ==> call_requires(share, (applied,))
        }
    }

    /// What an expression with the inner part `inner` needs of the values may be asked for:
    /// the inner part on them, or, where there is none, all of them.
    pub open spec fn may_begin<
        G: FnOnce(&R, ReadRequest<AllTrue>) -> F,
        A: FnOnce(F, Expression) -> F,
        S: FnOnce(F) -> F,
    >(self, inner: Option<ExprModel>, read: G, apply: A, share: S) -> bool {
        match inner {
            Some(e) => self.may_evaluate(e, read, apply, share),
            None => self.may_take_values(read, share),
        }
    }

    /// All values, made shareable. They are read when they are first asked for, and kept. From
    /// then on no function is called.
    pub fn values_array<G: FnOnce(&R, ReadRequest<AllTrue>) -> F, S: FnOnce(F) -> F>(
        &mut self,
        read: G,
        share: S,
    ) -> (r: F)
        requires
            old(self).wf(),
            old(self).may_take_values(read, share),
        ensures
            final(self).wf(),
            Self::values_step(*old(self), *final(self), read, share, r),
    {
        let kept: Option<F> = match &self.values_array {
            Some(array) => Some(array.clone()),
            None => None,
        };
        match kept {
            Some(array) => array,
            None => {
                let raw = read(&self.values, self.all_values());
                assert(old(self).reads_values(read, raw));
                let array = share(raw);
                let r = array.clone();
                self.values_array = Some(array);
                r
            },
        }
    }

    /// All values as they are read, without making them shareable, unless they are kept
    /// already: then nothing is read. Nothing is kept.
    pub fn values_array_uncanonical<G: FnOnce(&R, ReadRequest<AllTrue>) -> F>(
        &self,
        read: G,
    ) -> (r: F)
        requires
            self.wf(),
            self.may_find_values(read),
        ensures
            self.finds_values(read, r),
    {
        let kept: Option<F> = match &self.values_array {
            Some(array) => Some(array.clone()),
            None => None,
        };
        match kept {
            Some(array) => array,
            None => {
                read(&self.values, self.all_values())
            },
        }
    }

    /// The result of `expr` on the values. It is computed when it is first asked for, and
    /// kept. From then on no function is called for it.
    pub fn values_eval<
        G: FnOnce(&R, ReadRequest<AllTrue>) -> F,
        A: FnOnce(F, Expression) -> F,
        S: FnOnce(F) -> F,
    >(&mut self, expr: Expression, read: G, apply: A, share: S) -> (r: F)
        requires
            old(self).wf(),
            old(self).may_evaluate(expr@, read, apply, share),
        ensures
            final(self).wf(),
            Self::eval_step(*old(self), *final(self), expr@, read, apply, share, r),
    {
        let key = expression_key(&expr);
        let ghost e = expr@;
        if let Some(position) = self.values_evals.get(&key) {
            return self.evals[position].clone();
        }
        let array = self.values_array_uncanonical(read);
        let applied = apply(array, expr);
        let result = share(applied);
        assert(self.evaluates(e, read, apply, share, result));
        let r = result.clone();
        let position: usize = self.evals.len();
        self.evals.push(result);
        self.values_evals.get_or_insert(key, position);
        proof {
            assert forall|x: ExprModel| self.kept_evals().dom().contains(x) == old(
                self,
            ).kept_evals().insert(e, result).dom().contains(x) by {
                crate::key::law_keys_tell_expressions_apart(x, e);
            }
            assert forall|x: ExprModel|
                self.kept_evals().dom().contains(x) implies self.kept_evals()[x] == old(
                self,
            ).kept_evals().insert(e, result)[x] by {
                crate::key::law_keys_tell_expressions_apart(x, e);
            }
            assert(self.kept_evals() =~= old(self).kept_evals().insert(e, result));
        }
        r
    }

    /// Begins a projection of the rows of `row_range` that `mask` includes.
    ///
    /// The codes are read first, and where they cannot be, nothing else is asked for. Then the
    /// expression is split: where there is an inner part, it is evaluated on the values, and
    /// otherwise the values are taken as they are. The outer part is left for later.
    pub fn projection_evaluation<
        M,
        C,
        E,
        H: FnOnce(&R, ReadRequest<M>) -> Result<C, E>,
        G: FnOnce(&R, ReadRequest<AllTrue>) -> F,
        A: FnOnce(F, Expression) -> F,
        S: FnOnce(F) -> F,
    >(
        &mut self,
        row_range: &Range<u64>,
        expr: &Expression,
        mask: M,
        read_codes: H,
        read: G,
        apply: A,
        share: S,
    ) -> (r: Result<ProjectionPlan<F, C>, ContextError<E>>)
        requires
            old(self).wf(),
            call_requires(
                read_codes,
                (&old(self).codes_reader(), codes_request(*row_range, mask)),
            ),
            (exists|codes: C| #[trigger]
                call_ensures(
                    read_codes,
                    (&old(self).codes_reader(), codes_request(*row_range, mask)),
                    Ok(codes),
                )) ==> old(self).may_begin(expr@.split().1, read, apply, share),
        ensures
            final(self).wf(),
            match r {
                Ok(plan) => {
                    &&& call_ensures(
                        read_codes,
                        (&old(self).codes_reader(), codes_request(*row_range, mask)),
                        Ok(plan.codes),
                    )
                    &&& plan.tail.all_values_referenced
                        == old(self).layout().all_values_referenced
                    &&& Expression::option_model(plan.tail.outer) == expr@.split().0
                    &&& match expr@.split().1 {
                        Some(inner) => Self::eval_step(
                            *old(self),
                            *final(self),
                            inner,
                            read,
                            apply,
                            share,
                            plan.values,
                        ),
                        None => Self::values_step(
                            *old(self),
                            *final(self),
                            read,
                            share,
                            plan.values,
                        ),
                    }
                },
                Err(error) => {
                    &&& call_ensures(
                        read_codes,
                        (&old(self).codes_reader(), codes_request(*row_range, mask)),
                        Err(error.source),
                    )
                    &&& error.context@ == "While evaluating projection on codes"@
                    &&& *final(self) == *old(self)
                },
            },
    {
        let request = ReadRequest {
            rows: row_range.start..row_range.end,
            expr: Expression::Root,
            mask,
        };
        let codes = match read_codes(&self.codes, request) {
            Ok(codes) => codes,
            Err(source) => {
                return Err(
                    ContextError {
                        context: "While evaluating projection on codes".to_owned(),
                        source,
                    },
                );
            },
        };
        let (outer, inner) = split_expression_for_pushdown(expr.clone());
        let all_values_referenced = self.layout.all_values_referenced;
        let values = match inner {
            Some(inner) => self.values_eval(inner, read, apply, share),
            None => self.values_array(read, share),
        };
        Ok(ProjectionPlan { values, codes, tail: ProjectionTail { all_values_referenced, outer } })
    }

    /// Begins a filter over the rows of `row_range`, of which there are `mask_len`.
    ///
    /// The expression is evaluated on the values as a whole, and the codes of all the rows
    /// are read, whatever the filter's mask includes.
    pub fn filter_evaluation<
        C,
        E,
        H: FnOnce(&R, ReadRequest<AllTrue>) -> Result<C, E>,
        G: FnOnce(&R, ReadRequest<AllTrue>) -> F,
        A: FnOnce(F, Expression) -> F,
        S: FnOnce(F) -> F,
    >(
        &mut self,
        row_range: &Range<u64>,
        expr: &Expression,
        mask_len: usize,
        read_codes: H,
        read: G,
        apply: A,
        share: S,
    ) -> (r: Result<FilterPlan<F, C>, E>)
        requires
            old(self).wf(),
            call_requires(
                read_codes,
                (
                    &old(self).codes_reader(),
                    codes_request(*row_range, (AllTrue { len: mask_len })),
                ),
            ),
            old(self).may_begin(Some(expr@), read, apply, share),
        ensures
            final(self).wf(),
            match r {
                Ok(plan) => {
                    &&& plan.len == mask_len
                    &&& call_ensures(
                        read_codes,
                        (
                            &old(self).codes_reader(),
                            codes_request(*row_range, (AllTrue { len: mask_len })),
                        ),
                        Ok(plan.codes),
                    )
                    &&& Self::eval_step(
                        *old(self),
                        *final(self),
                        expr@,
                        read,
                        apply,
                        share,
                        plan.values,
                    )
                },
                Err(error) => {
                    &&& call_ensures(
                        read_codes,
                        (
                            &old(self).codes_reader(),
                            codes_request(*row_range, (AllTrue { len: mask_len })),
                        ),
                        Err(error),
                    )
                    &&& exists|values: F| #[trigger]
                        Self::eval_step(
                            *old(self),
                            *final(self),
                            expr@,
                            read,
                            apply,
                            share,
                            values,
                        )
                },
            },
    {
        let values = self.values_eval(expr.clone(), read, apply, share);
        let request = ReadRequest {
            rows: row_range.start..row_range.end,
            expr: Expression::Root,
            mask: AllTrue { len: mask_len },
        };
        match read_codes(&self.codes, request) {
            Ok(codes) => Ok(FilterPlan { len: mask_len, values, codes }),
            Err(error) => Err(error),
        }
    }
}

impl ProjectionTail {
    /// Ends a projection: values and codes make a dictionary array, which is optimised, and
    /// the outer part, if there is one, is applied to what comes of it. Where optimising fails,
    /// or there is no outer part, nothing is applied.
    pub fn finish<
        T,
        E,
        O: FnOnce(DictArray<T>) -> Result<T, E>,
        A: FnOnce(T, Expression) -> Result<T, E>,
    >(self, values: T, codes: T, optimize: O, apply: A) -> (r: Result<T, E>)
        requires
            call_requires(optimize, (self.dict_array(values, codes),)),
            self.outer matches Some(outer) ==> forall|array: T|
                call_ensures(optimize, (self.dict_array(values, codes),), Ok(array))
                    ==> #[trigger] call_requires(apply, (array, outer)),
        ensures
            self.finishes(values, codes, optimize, apply, r),
    {
        let dict = DictArray {
            codes,
            values,
            all_values_referenced: self.all_values_referenced,
        };
        match optimize(dict) {
            Ok(array) => match self.outer {
                Some(outer) => apply(array, outer),
                None => Ok(array),
            },
            Err(error) => Err(error),
        }
    }

    /// Ending a projection with these values and codes gives `result`: the first failure there
    /// is, or else the array that is left in the end.
    pub open spec fn finishes<
        T,
        E,
        O: FnOnce(DictArray<T>) -> Result<T, E>,
        A: FnOnce(T, Expression) -> Result<T, E>,
    >(self, values: T, codes: T, optimize: O, apply: A, result: Result<T, E>) -> bool {
        match result {
            Ok(rows) => exists|array: T| #[trigger]
                call_ensures(optimize, (self.dict_array(values, codes),), Ok(array))
                    && match self.outer {
                    Some(outer) => call_ensures(apply, (array, outer), Ok(rows)),
                    None => rows == array,
                },
            Err(error) => {
                ||| call_ensures(optimize, (self.dict_array(values, codes),), Err(error))
                ||| exists|array: T| #[trigger]
                    call_ensures(optimize, (self.dict_array(values, codes),), Ok(array))
                        && self.outer is Some && call_ensures(
                        apply,
                        (array, self.outer->0),
                        Err(error),
                    )
            },
        }
    }

    /// The dictionary array that values and codes make.
    pub open spec fn dict_array<T>(self, values: T, codes: T) -> DictArray<T> {
        DictArray { codes, values, all_values_referenced: self.all_values_referenced }
    }
}

/// A reader may be opened under `name`.
pub open spec fn may_open<R, E, O: FnOnce(String) -> Result<R, E>>(
    open: O,
    name: Seq<char>,
) -> bool {
    forall|child: String| child@ == name ==> #[trigger] call_requires(open, (child,))
}

/// Opening a reader under `name` gave `result`.
pub open spec fn opened<R, E, O: FnOnce(String) -> Result<R, E>>(
    open: O,
    name: Seq<char>,
    result: Result<R, E>,
) -> bool {
    exists|child: String| child@ == name && #[trigger] call_ensures(open, (child,), result)
}

/// The read of the codes of the rows of `rows` that `mask` includes.
pub open spec fn codes_request<M>(rows: Range<u64>, mask: M) -> ReadRequest<M> {
    ReadRequest { rows, expr: Expression::Root, mask }
}

/// What is kept stays kept, whatever is asked for next.
pub proof fn law_kept_results_stay<
    D,
    R,
    F: Clone,
    G: FnOnce(&R, ReadRequest<AllTrue>) -> F,
    A: FnOnce(F, Expression) -> F,
    S: FnOnce(F) -> F,
>(
    before: DictReader<D, R, F>,
    after: DictReader<D, R, F>,
    e: ExprModel,
    read: G,
    apply: A,
    share: S,
    result: F,
)
    requires
        DictReader::values_step(before, after, read, share, result) || DictReader::eval_step(
            before,
            after,
            e,
            read,
            apply,
            share,
            result,
        ),
    ensures
        before.kept_values() is Some ==> after.kept_values() == before.kept_values(),
        before.kept_evals().submap_of(after.kept_evals()),
{
}

/// Asking for all values a second time reads nothing: both times the same array is given, and
/// nothing is asked of the functions that the second call is handed, nor of those of a call for
/// the values as they are.
pub proof fn law_values_are_read_once<
    D,
    R,
    F: Clone,
    G1: FnOnce(&R, ReadRequest<AllTrue>) -> F,
    S1: FnOnce(F) -> F,
    G2: FnOnce(&R, ReadRequest<AllTrue>) -> F,
    S2: FnOnce(F) -> F,
>(
    first: DictReader<D, R, F>,
    second: DictReader<D, R, F>,
    third: DictReader<D, R, F>,
    read1: G1,
    share1: S1,
    array1: F,
    read2: G2,
    share2: S2,
    array2: F,
)
    requires
        DictReader::values_step(first, second, read1, share1, array1),
        DictReader::values_step(second, third, read2, share2, array2),
    ensures
        third.kept_values() == second.kept_values(),
        third.kept_evals() == second.kept_evals(),
        second.kept_values() matches Some(kept) && cloned(kept, array1) && cloned(kept, array2),
        second.may_take_values(read2, share2),
        second.may_find_values(read2),
{
}

/// Asking for the same expression a second time reads and evaluates nothing: both times the
/// same result is given, and nothing is asked of the functions that the second call is handed.
pub proof fn law_expressions_are_evaluated_once<
    D,
    R,
    F: Clone,
    G1: FnOnce(&R, ReadRequest<AllTrue>) -> F,
    A1: FnOnce(F, Expression) -> F,
    S1: FnOnce(F) -> F,
    G2: FnOnce(&R, ReadRequest<AllTrue>) -> F,
    A2: FnOnce(F, Expression) -> F,
    S2: FnOnce(F) -> F,
>(
    first: DictReader<D, R, F>,
    second: DictReader<D, R, F>,
    third: DictReader<D, R, F>,
    e: ExprModel,
    read1: G1,
    apply1: A1,
    share1: S1,
    result1: F,
    read2: G2,
    apply2: A2,
    share2: S2,
    result2: F,
)
    requires
        DictReader::eval_step(first, second, e, read1, apply1, share1, result1),
        DictReader::eval_step(second, third, e, read2, apply2, share2, result2),
    ensures
        third.kept_values() == second.kept_values(),
        third.kept_evals() == second.kept_evals(),
        cloned(second.kept_evals()[e], result1) && cloned(second.kept_evals()[e], result2),
        second.may_begin(Some(e), read2, apply2, share2),
{
}

/// The readers of values and codes are opened under the name of the reader with `.values` and
/// `.codes` behind it: that is the text that each function is called with. So the two go by
/// different names, and those of readers with different names do too.
pub proof fn law_children_are_opened_under_their_names<
    R,
    E,
    V: FnOnce(String) -> Result<R, E>,
    C: FnOnce(String) -> Result<R, E>,
>(
    name: Seq<char>,
    other: Seq<char>,
    open_values: V,
    open_codes: C,
    values: Result<R, E>,
    codes: Result<R, E>,
)
    ensures
        opened(open_values, name + ".values"@, values) <==> exists|child: String|
            child@ == name + seq!['.', 'v', 'a', 'l', 'u', 'e', 's'] && #[trigger] call_ensures(
                open_values,
                (child,),
                values,
            ),
        opened(open_codes, name + ".codes"@, codes) <==> exists|child: String|
            child@ == name + seq!['.', 'c', 'o', 'd', 'e', 's'] && #[trigger] call_ensures(
                open_codes,
                (child,),
                codes,
            ),
        may_open(open_values, name + ".values"@) <==> forall|child: String|
            child@ == name + seq!['.', 'v', 'a', 'l', 'u', 'e', 's'] ==> #[trigger] call_requires(
                open_values,
                (child,),
            ),
        may_open(open_codes, name + ".codes"@) <==> forall|child: String|
            child@ == name + seq!['.', 'c', 'o', 'd', 'e', 's'] ==> #[trigger] call_requires(
                open_codes,
                (child,),
            ),
        name + ".values"@ != other + ".codes"@,
        name != other ==> name + ".values"@ != other + ".values"@,
        name != other ==> name + ".codes"@ != other + ".codes"@,
{
    reveal_strlit(".values");
    reveal_strlit(".codes");
    assert(".values"@ =~= seq!['.', 'v', 'a', 'l', 'u', 'e', 's']);
    assert(".codes"@ =~= seq!['.', 'c', 'o', 'd', 'e', 's']);
    let values_name = name + ".values"@;
    let codes_name = name + ".codes"@;
    assert(values_name[values_name.len() - 3] == 'u');
    assert((other + ".codes"@)[other.len() + 6 - 3] == 'd');
    assert(name =~= values_name.take(values_name.len() - 7));
    assert(other =~= (other + ".values"@).take(other.len() as int));
    assert(name =~= codes_name.take(codes_name.len() - 6));
    assert(other =~= (other + ".codes"@).take(other.len() as int));
}

/// The one read that is asked of the reader of the values is for the column as it is, over all
/// its rows: from the first one up to as many as the layout says, with a mask over that many.
pub proof fn law_all_values_are_asked_for<D, R, F>(reader: DictReader<D, R, F>)
    requires
        reader.wf(),
    ensures
        reader.values_request().rows.start == 0,
        reader.values_request().rows.end == reader.layout().values_row_count,
        reader.values_request().expr is Root,
        reader.values_request().mask.len == reader.layout().values_row_count,
{
}

/// The read that is asked of the reader of the codes is for the column as it is, over just the
/// rows that were asked for, under just the mask that was given.
pub proof fn law_rows_asked_for_are_asked_for<M>(rows: Range<u64>, mask: M)
    ensures
        codes_request(rows, mask).rows.start == rows.start,
        codes_request(rows, mask).rows.end == rows.end,
        codes_request(rows, mask).expr is Root,
        codes_request(rows, mask).mask == mask,
{
}

/// Ending a projection calls `optimize` on a dictionary array with just these values and codes,
/// and with the flag of the layout that the reader was opened with. Where that fails, its error
/// is the outcome; elsewhere the outcome is what it gave or, if there is an outer part, what
/// applying that to what it gave leads to.
pub proof fn law_array_keeps_the_flag_of_the_layout<
    D,
    R,
    F,
    T,
    E,
    O: FnOnce(DictArray<T>) -> Result<T, E>,
    A: FnOnce(T, Expression) -> Result<T, E>,
>(
    reader: DictReader<D, R, F>,
    tail: ProjectionTail,
    values: T,
    codes: T,
    optimize: O,
    apply: A,
    result: Result<T, E>,
)
    requires
        tail.all_values_referenced == reader.layout().all_values_referenced,
        tail.finishes(values, codes, optimize, apply, result),
    ensures
        exists|dict: DictArray<T>, array: Result<T, E>| #[trigger]
            call_ensures(optimize, (dict,), array) && {
                &&& dict.values == values
                &&& dict.codes == codes
                &&& dict.all_values_referenced == reader.layout().all_values_referenced
                &&& match (array, tail.outer) {
                    (Err(error), _) => result == Err::<T, E>(error),
                    (Ok(array), None) => result == Ok::<T, E>(array),
                    (Ok(array), Some(outer)) => call_ensures(apply, (array, outer), result),
                }
            },
{
    let dict = DictArray {
        values,
        codes,
        all_values_referenced: reader.layout().all_values_referenced,
    };
    assert(tail.dict_array(values, codes) == dict);
    match result {
        Ok(rows) => {
            let array = choose|array: T| #[trigger]
                call_ensures(optimize, (dict,), Ok::<T, E>(array)) && match tail.outer {
                    Some(outer) => call_ensures(apply, (array, outer), Ok::<T, E>(rows)),
                    None => rows == array,
                };
            assert(call_ensures(optimize, (dict,), Ok::<T, E>(array)));
        },
        Err(error) => {
            if call_ensures(optimize, (dict,), Err::<T, E>(error)) {
            } else {
                let array = choose|array: T| #[trigger]
                    call_ensures(optimize, (dict,), Ok::<T, E>(array)) && tail.outer is Some
                        && call_ensures(apply, (array, tail.outer->0), Err::<T, E>(error));
                assert(call_ensures(optimize, (dict,), Ok::<T, E>(array)));
            }
        },
    }
}

/// Asking for the values, or for an expression on them, changes neither the layout, nor the name,
/// nor the readers of values and codes. Asking for the values keeps no result of an expression,
/// and asking for an expression does not keep the values.
pub proof fn law_steps_keep_the_column<
    D,
    R,
    F: Clone,
    G: FnOnce(&R, ReadRequest<AllTrue>) -> F,
    A: FnOnce(F, Expression) -> F,
    S: FnOnce(F) -> F,
>(
    before: DictReader<D, R, F>,
    after: DictReader<D, R, F>,
    e: ExprModel,
    read: G,
    apply: A,
    share: S,
    result: F,
)
    ensures
        DictReader::values_step(before, after, read, share, result) ==> {
            &&& after.layout() == before.layout()
            &&& after.reader_name() == before.reader_name()
            &&& after.values_reader() == before.values_reader()
            &&& after.codes_reader() == before.codes_reader()
            &&& after.kept_evals() == before.kept_evals()
        },
        DictReader::eval_step(before, after, e, read, apply, share, result) ==> {
            &&& after.layout() == before.layout()
            &&& after.reader_name() == before.reader_name()
            &&& after.values_reader() == before.values_reader()
            &&& after.codes_reader() == before.codes_reader()
            &&& after.kept_values() == before.kept_values()
            &&& forall|other: ExprModel|
                other != e ==> {
                    &&& #[trigger] after.kept_evals().dom().contains(other)
                        <==> before.kept_evals().dom().contains(other)
                    &&& before.kept_evals().dom().contains(other) ==> after.kept_evals()[other]
                        == before.kept_evals()[other]
                }
        },
{
}

/// Values that were not kept are read from the reader of the values, all of them and once, and
/// what came of that is made shareable and kept. A result that was not kept is made by applying
/// the expression itself to the values, which are the ones that are kept or else a read of all
/// of them, and what came of that is made shareable and kept.
pub proof fn law_what_is_kept_comes_of_the_values<
    D,
    R,
    F: Clone,
    G: FnOnce(&R, ReadRequest<AllTrue>) -> F,
    A: FnOnce(F, Expression) -> F,
    S: FnOnce(F) -> F,
>(
    before: DictReader<D, R, F>,
    after: DictReader<D, R, F>,
    e: ExprModel,
    read: G,
    apply: A,
    share: S,
    result: F,
)
    requires
        before.wf(),
    ensures
        DictReader::values_step(before, after, read, share, result) && before.kept_values() is None
            ==> exists|request: ReadRequest<AllTrue>, raw: F| #[trigger]
            call_ensures(read, (&before.values_reader(), request), raw) && {
                &&& request.rows.start == 0
                &&& request.rows.end == before.layout().values_row_count
                &&& request.expr is Root
                &&& request.mask.len == before.layout().values_row_count
                &&& after.kept_values() is Some
                &&& call_ensures(share, (raw,), after.kept_values()->0)
            },
        DictReader::eval_step(before, after, e, read, apply, share, result)
            && !before.kept_evals().dom().contains(e) ==> exists|
            array: F,
            expr: Expression,
            applied: F,
        | #[trigger]
            call_ensures(apply, (array, expr), applied) && {
                &&& expr@ == e
                &&& call_ensures(share, (applied,), after.kept_evals()[e])
                &&& match before.kept_values() {
                    Some(kept) => cloned(kept, array),
                    None => exists|request: ReadRequest<AllTrue>| #[trigger]
                        call_ensures(read, (&before.values_reader(), request), array) && {
                            &&& request.rows.start == 0
                            &&& request.rows.end == before.layout().values_row_count
                            &&& request.expr is Root
                            &&& request.mask.len == before.layout().values_row_count
                        },
                }
            },
{
    let request = before.values_request();
    law_all_values_are_asked_for(before);
    if DictReader::values_step(before, after, read, share, result) && before.kept_values() is None {
        let raw = choose|raw: F|
            #![trigger before.reads_values(read, raw)]
            before.reads_values(read, raw) && call_ensures(share, (raw,), after.kept_values()->0);
        assert(call_ensures(read, (&before.values_reader(), request), raw));
    }
    if DictReader::eval_step(before, after, e, read, apply, share, result)
        && !before.kept_evals().dom().contains(e) {
        let kept = after.kept_evals()[e];
        let (array, expr, applied) = choose|array: F, expr: Expression, applied: F|
            #![trigger call_ensures(apply, (array, expr), applied)]
            expr@ == e && before.finds_values(read, array) && call_ensures(
                apply,
                (array, expr),
                applied,
            ) && call_ensures(share, (applied,), kept);
        assert(call_ensures(apply, (array, expr), applied));
        if before.kept_values() is None {
            assert(call_ensures(read, (&before.values_reader(), request), array));
        }
    }
}

/// Functions that can be called on anything may be handed to any call, and where the values or
/// the result of an expression are kept, any functions may be.
pub proof fn law_what_is_asked_of_functions<
    D,
    R,
    F: Clone,
    G: FnOnce(&R, ReadRequest<AllTrue>) -> F,
    A: FnOnce(F, Expression) -> F,
    S: FnOnce(F) -> F,
>(reader: DictReader<D, R, F>, e: ExprModel, read: G, apply: A, share: S)
    ensures
        ({
            &&& forall|request: ReadRequest<AllTrue>| #[trigger]
                call_requires(read, (&reader.values_reader(), request))
            &&& forall|array: F, expr: Expression| #[trigger] call_requires(apply, (array, expr))
            &&& forall|array: F| #[trigger] call_requires(share, (array,))
        }) ==> {
            &&& reader.may_find_values(read)
            &&& reader.may_take_values(read, share)
            &&& reader.may_evaluate(e, read, apply, share)
            &&& reader.may_begin(Some(e), read, apply, share)
            &&& reader.may_begin(None, read, apply, share)
        },
        reader.kept_values() is Some ==> {
            &&& reader.may_find_values(read)
            &&& reader.may_take_values(read, share)
            &&& reader.may_begin(None, read, apply, share)
        },
        reader.kept_evals().dom().contains(e) ==> {
            &&& reader.may_evaluate(e, read, apply, share)
            &&& reader.may_begin(Some(e), read, apply, share)
        },
{
}

} // verus!

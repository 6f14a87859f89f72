//! Tests for the chain builders, executors, and the asynchronous chain,
//! driven by a small test executor.

use futures::executor::block_on;
use lodash_rs::chain::AsyncChain;
use lodash_rs::chain::AsyncOperation;
use lodash_rs::chain::builder::AsyncChainBuilder;
use lodash_rs::chain::builder::ChainBuilder;
use lodash_rs::chain::chain_async;
use lodash_rs::chain::executor::AsyncChainExecutor;
use lodash_rs::chain::executor::ChainExecutor;

type IntMapper = fn(&i32) -> i32;
type IntPred = fn(&i32) -> bool;

/// Drive an asynchronous chain to completion: await each deferred step one
/// element at a time, in order, and hand every decision to the library's
/// verified step functions.
async fn run_async_chain<T, F, FutT, P, FutB>(chain: AsyncChain<T, F, P>) -> Vec<T>
where
    F: Fn(&T) -> FutT,
    FutT: std::future::Future<Output = T>,
    P: Fn(&T) -> FutB,
    FutB: std::future::Future<Output = bool>,
{
    let (data, operations) = chain.into_parts();
    let mut result = data;
    for operation in operations {
        match operation {
            AsyncOperation::MapAsync(mapper) => {
                let mut outputs = Vec::new();
                for item in &result {
                    outputs.push(mapper(item).await);
                }
                result = outputs;
            }
            AsyncOperation::FilterAsync(predicate) => {
                let mut verdicts = Vec::new();
                for item in &result {
                    verdicts.push(predicate(item).await);
                }
                result = lodash_rs::chain::select_by_verdicts(result, &verdicts);
            }
            AsyncOperation::Take(n) => {
                result = lodash_rs::chain::apply_take(result, n);
            }
            AsyncOperation::Skip(n) => {
                result = lodash_rs::chain::apply_skip(result, n);
            }
            AsyncOperation::Reverse => {
                result = lodash_rs::chain::apply_reverse(result);
            }
        }
    }
    result
}

#[test]
fn test_builder_map_filter_build() {
    let result = ChainBuilder::<i32, IntMapper, IntPred>::new(vec![1, 2, 3, 4, 5])
        .filter(|x| x % 2 == 1)
        .map(|x| x * 10)
        .build()
        .value();
    assert_eq!(result, vec![10, 30, 50]);
}

#[test]
fn test_executor_execute() {
    let chain = ChainBuilder::<i32, IntMapper, IntPred>::new(vec![1, 2, 3]).map(|x| x + 1).build();
    let result = ChainExecutor::new(chain).execute();
    assert_eq!(result, vec![2, 3, 4]);
}

#[test]
fn test_async_builder_build() {
    let builder = AsyncChainBuilder::<i32, _, fn(&i32) -> std::future::Ready<bool>>::new(
        vec![1, 2, 3],
    );
    let builder = builder.map_async(|x: &i32| {
        let x = *x;
        async move { x * 2 }
    });
    let chain = builder.build();
    let result = block_on(run_async_chain(chain));
    assert_eq!(result, vec![2, 4, 6]);
}

#[test]
fn test_async_executor_into_chain() {
    let chain = chain_async::<i32, _, fn(&i32) -> std::future::Ready<bool>>(&[1, 2, 3])
        .map_async(|x: &i32| {
            let x = *x;
            async move { x + 1 }
        });
    let executor = AsyncChainExecutor::new(chain);
    let result = block_on(run_async_chain(executor.into_chain()));
    assert_eq!(result, vec![2, 3, 4]);
}

#[test]
fn test_chain_async_map() {
    let chain = chain_async::<i32, _, fn(&i32) -> std::future::Ready<bool>>(&[1, 2, 3])
        .map_async(|x: &i32| {
            let x = *x;
            async move { x * 2 }
        });
    let result = block_on(run_async_chain(chain));
    assert_eq!(result, vec![2, 4, 6]);
}

#[test]
fn test_chain_async_filter() {
    let chain = chain_async::<i32, fn(&i32) -> std::future::Ready<i32>, _>(&[1, 2, 3, 4, 5])
        .filter_async(|x: &i32| {
            let x = *x;
            async move { x % 2 == 0 }
        });
    let result = block_on(run_async_chain(chain));
    assert_eq!(result, vec![2, 4]);
}

#[test]
fn test_chain_async_complex() {
    let chain = chain_async(&[1, 2, 3, 4, 5, 6, 7, 8, 9, 10])
        .filter_async(|x: &i32| {
            let x = *x;
            async move { x % 2 == 0 }
        })
        .map_async(|x: &i32| {
            let x = *x;
            async move { x * 3 }
        })
        .take(3);
    let result = block_on(run_async_chain(chain));
    assert_eq!(result, vec![6, 12, 18]);
}

#[test]
fn test_async_chain_filter_map_take() {
    let chain = chain_async(&[1, 2, 3, 4, 5, 6, 7, 8, 9, 10])
        .filter_async(|x: &i32| {
            let x = *x;
            async move { x % 2 == 0 }
        })
        .map_async(|x: &i32| {
            let x = *x;
            async move { x * 3 }
        })
        .take(3);
    let result = block_on(run_async_chain(chain));
    assert_eq!(result, vec![6, 12, 18]);
}

#[test]
fn test_async_chain_matches_sync_chain() {
    let source = [3, 1, 4, 1, 5, 9, 2, 6];
    let sync_result = lodash_rs::chain::chain(&source)
        .map(|x: &i32| x * 2)
        .filter(|x: &i32| *x > 4)
        .value();
    let async_chain = chain_async(&source)
        .map_async(|x: &i32| {
            let x = *x;
            async move { x * 2 }
        })
        .filter_async(|x: &i32| {
            let x = *x;
            async move { x > 4 }
        });
    let async_result = block_on(run_async_chain(async_chain));
    assert_eq!(sync_result, async_result);
}

#[test]
fn test_async_chain_skip_reverse() {
    let chain = chain_async::<i32, fn(&i32) -> std::future::Ready<i32>, fn(
        &i32,
    ) -> std::future::Ready<bool>>(&[1, 2, 3, 4, 5])
        .skip(1)
        .reverse();
    let result = block_on(run_async_chain(chain));
    assert_eq!(result, vec![5, 4, 3, 2]);
}

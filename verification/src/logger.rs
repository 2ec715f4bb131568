use vstd::prelude::*;

verus! {

/// A sink for diagnostic messages. The library only ever sends tracing
/// output through this trait; results never depend on what a sink does.
pub trait LoggerRepository {
    fn print(&self, message: &str);
}

/// Thin wrapper holding the configured logging sink.
#[derive(Debug)]
pub struct LoggerInteractor<T> where T: LoggerRepository {
    logger_repository: T,
}

impl<T: LoggerRepository> LoggerInteractor<T> {
    pub fn new(logger: T) -> LoggerInteractor<T> {
        LoggerInteractor { logger_repository: logger }
    }

    pub fn print(&self, message: &str) {
        self.logger_repository.print(message);
    }
}

impl<T: LoggerRepository + Clone> LoggerInteractor<T> {
    pub fn get(&self) -> T {
        self.logger_repository.clone()
    }
}

/// A sink that discards every message.
#[derive(Debug, Clone)]
pub struct DefaultLoggerRepository {}

impl LoggerRepository for DefaultLoggerRepository {
    fn print(&self, _message: &str) {
    }
}

} // verus!

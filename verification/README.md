# tickertools

Prepares daily ticker close prices for training recurrent models: it cuts a price
history into lookback windows (`tm7 … tm1, t0`), splits them into features and
target and into training and test rows, stores and restores the four parts of a
split by name, and plans the mini-batches and reports of a training run.

- `src/` is the library, with its contracts and proofs. Dates and prices are type parameters:
  the library only carries them.
- `app/` is the command-line tool around it: it downloads histories, scales prices,
  writes tables, and trains the models with libtorch.
- `tests/` runs the library on concrete values.
